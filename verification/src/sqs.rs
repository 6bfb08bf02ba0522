use vstd::prelude::*;

use crate::dict::{dict_get, dict_has_key, dict_insert, Dict};
use crate::errors::{
    is_missing_param, is_queue_not_found, require_param, MyError, MyResult,
};
use crate::misc::{
    collected_attrs, collected_names, escape_seq, get_attributes, get_message_attribute_names,
    get_message_attributes,
};
use crate::state::{
    attr_bytes, drop_queue_records, has_key, key_index, md5_digest, queue_path_of, queue_url_of,
    remove_key, val_of, Message, MessageView, QueuePath, ReceiveHandle, SQSQueue, State,
};
use crate::text::{hex_of, parse_u32, parse_u64, parse_u8, parsed_dec};
use crate::xml::{escaped_attrs_xml, finish_response, meta_response, seq_xml, FormatXML};

verus! {

/// One `<QueueUrl>` element per registered queue, carrying its derived URL,
/// escaped.
pub open spec fn queue_urls_xml(
    qs: Seq<(QueuePath, SQSQueue)>,
    endpoint_url: Seq<char>,
    account_id: Seq<char>,
) -> Seq<char>
    decreases qs.len(),
{
    if qs.len() == 0 {
        Seq::empty()
    } else {
        queue_urls_xml(qs.drop_last(), endpoint_url, account_id) + "<"@ + "QueueUrl"@ + ">"@
            + escape_seq(queue_url_of(endpoint_url, account_id, qs.last().1.name@)) + "</"@
            + "QueueUrl"@ + ">"@
    }
}

/// Rendering each queue's URL under the `QueueUrl` tag yields exactly
/// `queue_urls_xml`.
pub proof fn lemma_queue_urls_xml(
    urls: Seq<String>,
    qs: Seq<(QueuePath, SQSQueue)>,
    endpoint_url: Seq<char>,
    account_id: Seq<char>,
)
    requires
        urls.len() == qs.len(),
        forall|k: int|
            0 <= k < qs.len() ==> (#[trigger] urls[k])@ == queue_url_of(
                endpoint_url,
                account_id,
                qs[k].1.name@,
            ),
    ensures
        seq_xml(urls, "QueueUrl"@) == queue_urls_xml(qs, endpoint_url, account_id),
    decreases urls.len(),
{
    if urls.len() > 0 {
        lemma_queue_urls_xml(urls.drop_last(), qs.drop_last(), endpoint_url, account_id);
        assert(forall|k: int|
            0 <= k < qs.len() - 1 ==> #[trigger] qs.drop_last()[k] == qs[k] && urls.drop_last()[k]
                == urls[k]);
        assert(urls.last() == urls[urls.len() - 1]);
        assert(qs.last() == qs[qs.len() - 1]);
        assert(urls.last()@ == queue_url_of(endpoint_url, account_id, qs.last().1.name@));
        assert(urls.last().xml_spec("QueueUrl"@) == "<"@ + "QueueUrl"@ + ">"@ + escape_seq(
            urls.last()@,
        ) + "</"@ + "QueueUrl"@ + ">"@);
        assert(seq_xml(urls, "QueueUrl"@) =~= queue_urls_xml(qs, endpoint_url, account_id));
    } else {
        assert(seq_xml(urls, "QueueUrl"@) =~= queue_urls_xml(qs, endpoint_url, account_id));
    }
}

pub open spec fn list_queues_head(
    qs: Seq<(QueuePath, SQSQueue)>,
    endpoint_url: Seq<char>,
    account_id: Seq<char>,
) -> Seq<char> {
    "<ListQueuesResponse><ListQueuesResult>"@ + queue_urls_xml(qs, endpoint_url, account_id)
        + "</ListQueuesResult>"@
}

/// List the derived URL of every registered queue.
pub fn list_queues(_form: &Dict, state: &State) -> (r: MyResult<String>)
    ensures
        r is Ok,
        meta_response(
            r->Ok_0@,
            list_queues_head(state.queues@, state.endpoint_url@, state.account_id@),
            "</ListQueuesResponse>"@,
        ),
{
    let mut queue_urls: Vec<String> = Vec::new();
    let mut i: usize = 0;
    while i < state.queues.len()
        invariant
            i <= state.queues@.len(),
            queue_urls@.len() == i as int,
            forall|k: int|
                0 <= k < i ==> (#[trigger] queue_urls@[k])@ == queue_url_of(
                    state.endpoint_url@,
                    state.account_id@,
                    state.queues@[k].1.name@,
                ),
        decreases state.queues@.len() - i,
    {
        queue_urls.push(state.get_queue_url(state.queues[i].1.name.as_str()));
        i += 1;
    }
    let urls_xml = queue_urls.to_xml_string("QueueUrl");
    proof {
        lemma_queue_urls_xml(
            queue_urls@,
            state.queues@,
            state.endpoint_url@,
            state.account_id@,
        );
    }
    let mut head = String::from_str("<ListQueuesResponse><ListQueuesResult>");
    head.append(urls_xml.as_str());
    head.append("</ListQueuesResult>");
    Ok(finish_response(head, "</ListQueuesResponse>"))
}

pub open spec fn create_queue_head(url: Seq<char>) -> Seq<char> {
    "<CreateQueueResponse><CreateQueueResult><QueueUrl>"@ + escape_seq(url)
        + "</QueueUrl></CreateQueueResult>"@
}

/// The attribute bag a freshly created queue carries: the request's
/// attributes, with the default visibility timeout filled in when absent.
pub open spec fn created_queue_attrs(form: Seq<(Seq<char>, Seq<char>)>) -> Seq<
    (Seq<char>, Seq<char>),
> {
    let collected = collected_attrs(form, "Attribute."@, 1, Seq::empty());
    if dict_has_key(collected, "VisibilityTimeout"@) {
        collected
    } else {
        dict_insert(collected, "VisibilityTimeout"@, "30"@)
    }
}

/// Create a queue under its derived path; creating a name that is already
/// taken leaves the existing queue in place and still reports the URL.
pub fn create_queue(form: &Dict, state: &mut State) -> (r: MyResult<String>)
    ensures
        ({
            let name = dict_get(form@, "QueueName"@);
            match r {
                Err(e) => name is None && is_missing_param(e, "QueueName"@) && *final(state)
                    == *old(state),
                Ok(out) => {
                    let url = queue_url_of(
                        old(state).endpoint_url@,
                        old(state).account_id@,
                        name->0,
                    );
                    let key = queue_path_of(url);
                    &&& name is Some
                    &&& (has_key(old(state).queues@, key) ==> final(state).queues@ == old(state).queues@)
                    &&& (!has_key(old(state).queues@, key) ==> final(state).queues@.len() == old(state).queues@.len() + 1 && final(state).queues@.drop_last() == old(state).queues@
                        && final(state).queues@.last().0@ == key && final(state).queues@.last().1.name@ == name->0 && final(state).queues@.last().1.attributes@
                        == created_queue_attrs(form@) && final(state).queues@.last().1.messages@.len() == 0 && final(state).queues@.last().1.bell
                        is None)
                    &&& meta_response(out@, create_queue_head(url), "</CreateQueueResponse>"@)
                    &&& final(state).topics == old(state).topics
                    &&& final(state).received_messages == old(state).received_messages
                    &&& final(state).account_id == old(state).account_id
                    &&& final(state).region == old(state).region
                    &&& final(state).endpoint_url == old(state).endpoint_url
                },
            }
        }),
{
    let queue_name = match require_param(form, "QueueName") {
        Ok(v) => v,
        Err(e) => {
            return Err(e);
        },
    };
    let attributes = get_attributes(form);
    let mut q = SQSQueue::new(queue_name.as_str(), attributes);
    q.set_attribute_default("VisibilityTimeout", "30");
    state.add_queue(q);
    let queue_url = state.get_queue_url(queue_name.as_str());
    let mut head = String::from_str("<CreateQueueResponse><CreateQueueResult><QueueUrl>");
    let escaped = crate::misc::escape_xml(queue_url.as_str());
    head.append(escaped.as_str());
    head.append("</QueueUrl></CreateQueueResult>");
    Ok(finish_response(head, "</CreateQueueResponse>"))
}

/// Delete the queue under the given URL with all its pending messages, and
/// drop the in-flight records that reference it; an unknown URL is a silent
/// no-op.
pub fn delete_queue(form: &Dict, state: &mut State) -> (r: MyResult<String>)
    ensures
        ({
            let url = dict_get(form@, "QueueUrl"@);
            match r {
                Err(e) => url is None && is_missing_param(e, "QueueUrl"@) && *final(state) == *old(state),
                Ok(out) => {
                    let key = queue_path_of(url->0);
                    &&& url is Some
                    &&& final(state).queues@ == remove_key(old(state).queues@, key)
                    &&& final(state).received_messages@ == if has_key(old(state).queues@, key) {
                        drop_queue_records(old(state).received_messages@, key)
                    } else {
                        old(state).received_messages@
                    }
                    &&& meta_response(out@, "<DeleteQueueResponse>"@, "</DeleteQueueResponse>"@)
                    &&& final(state).topics == old(state).topics
                    &&& final(state).account_id == old(state).account_id
                    &&& final(state).region == old(state).region
                    &&& final(state).endpoint_url == old(state).endpoint_url
                },
            }
        }),
{
    let queue_url = match require_param(form, "QueueUrl") {
        Ok(v) => v,
        Err(e) => {
            return Err(e);
        },
    };
    state.remove_queue(queue_url.as_str());
    Ok(finish_response(
        String::from_str("<DeleteQueueResponse>"),
        "</DeleteQueueResponse>",
    ))
}

pub open spec fn get_queue_attributes_head(attrs: Seq<(Seq<char>, Seq<char>)>) -> Seq<char> {
    "<GetQueueAttributesResponse><GetQueueAttributesResult>"@ + escaped_attrs_xml(attrs)
        + "</GetQueueAttributesResult>"@
}

/// Report the attribute bag of the queue under the given URL.
pub fn get_queue_attributes(form: &Dict, state: &State) -> (r: MyResult<String>)
    ensures
        ({
            let url = dict_get(form@, "QueueUrl"@);
            match r {
                Err(e) => (url is None && is_missing_param(e, "QueueUrl"@)) || (url is Some
                    && !has_key(state.queues@, queue_path_of(url->0)) && is_queue_not_found(
                    e,
                    url->0,
                )),
                Ok(out) => {
                    let key = queue_path_of(url->0);
                    &&& url is Some
                    &&& has_key(state.queues@, key)
                    &&& meta_response(
                        out@,
                        get_queue_attributes_head(val_of(state.queues@, key).attributes@),
                        "</GetQueueAttributesResponse>"@,
                    )
                },
            }
        }),
{
    let queue_url = match require_param(form, "QueueUrl") {
        Ok(v) => v,
        Err(e) => {
            return Err(e);
        },
    };
    let path = state.get_queue_path(queue_url.as_str());
    match state.find_queue(&path) {
        None => Err(MyError::QueueNotFound(queue_url.clone())),
        Some(i) => {
            proof {
                crate::state::lemma_key_index(state.queues@, path@);
            }
            let q = &state.queues[i].1;
            let mut head = String::from_str(
                "<GetQueueAttributesResponse><GetQueueAttributesResult>",
            );
            let mut j: usize = 0;
            while j < q.attributes.entries.len()
                invariant
                    j <= q.attributes@.len(),
                    *q == state.queues@[key_index(state.queues@, path@)].1,
                    head@ =~= "<GetQueueAttributesResponse><GetQueueAttributesResult>"@
                        + escaped_attrs_xml(q.attributes@.take(j as int)),
                decreases q.attributes@.len() - j,
            {
                proof {
                    let tt = q.attributes@.take(j + 1);
                    assert(tt.drop_last() =~= q.attributes@.take(j as int));
                    assert(tt.last() == q.attributes@[j as int]);
                }
                head.append("<Attribute><Name>");
                let ek = crate::misc::escape_xml(q.attributes.entries[j].0.as_str());
                head.append(ek.as_str());
                head.append("</Name><Value>");
                let ev = crate::misc::escape_xml(q.attributes.entries[j].1.as_str());
                head.append(ev.as_str());
                head.append("</Value></Attribute>");
                j += 1;
                assert(head@ =~= "<GetQueueAttributesResponse><GetQueueAttributesResult>"@
                    + escaped_attrs_xml(q.attributes@.take(j as int)));
            }
            proof {
                assert(q.attributes@.take(q.attributes@.len() as int) =~= q.attributes@);
            }
            head.append("</GetQueueAttributesResult>");
            Ok(finish_response(head, "</GetQueueAttributesResponse>"))
        },
    }
}

/// Replace the whole attribute bag of the queue under the given URL.
pub fn set_queue_attributes(form: &Dict, state: &mut State) -> (r: MyResult<String>)
    ensures
        ({
            let url = dict_get(form@, "QueueUrl"@);
            match r {
                Err(e) => *final(state) == *old(state) && ((url is None && is_missing_param(
                    e,
                    "QueueUrl"@,
                )) || (url is Some && !has_key(old(state).queues@, queue_path_of(url->0))
                    && is_queue_not_found(e, url->0))),
                Ok(out) => {
                    let key = queue_path_of(url->0);
                    let i = key_index(old(state).queues@, key);
                    &&& url is Some
                    &&& has_key(old(state).queues@, key)
                    &&& final(state).queues@.len() == old(state).queues@.len()
                    &&& forall|j: int|
                        0 <= j < old(state).queues@.len() && j != i ==> final(state).queues@[j]
                            == old(state).queues@[j]
                    &&& final(state).queues@[i].0 == old(state).queues@[i].0
                    &&& final(state).queues@[i].1.name == old(state).queues@[i].1.name
                    &&& final(state).queues@[i].1.messages == old(state).queues@[i].1.messages
                    &&& final(state).queues@[i].1.bell == old(state).queues@[i].1.bell
                    &&& final(state).queues@[i].1.attributes@ == collected_attrs(
                        form@,
                        "Attribute."@,
                        1,
                        Seq::empty(),
                    )
                    &&& meta_response(
                        out@,
                        "<SetQueueAttributesResponse>"@,
                        "</SetQueueAttributesResponse>"@,
                    )
                    &&& final(state).topics == old(state).topics
                    &&& final(state).received_messages == old(state).received_messages
                    &&& final(state).account_id == old(state).account_id
                    &&& final(state).region == old(state).region
                    &&& final(state).endpoint_url == old(state).endpoint_url
                },
            }
        }),
{
    let queue_url = match require_param(form, "QueueUrl") {
        Ok(v) => v,
        Err(e) => {
            return Err(e);
        },
    };
    let attributes = get_attributes(form);
    let path = state.get_queue_path(queue_url.as_str());
    match state.find_queue(&path) {
        None => Err(MyError::QueueNotFound(queue_url.clone())),
        Some(i) => {
            let entry = state.queues.remove(i);
            let (key, mut q) = entry;
            q.attributes = attributes;
            state.queues.insert(i, (key, q));
            proof {
                assert(state.queues@ =~= old(state).queues@.update(
                    i as int,
                    state.queues@[i as int],
                ));
            }
            Ok(finish_response(
                String::from_str("<SetQueueAttributesResponse>"),
                "</SetQueueAttributesResponse>",
            ))
        },
    }
}

/// Settle one delivery for good: purge the in-flight record under the given
/// receipt handle. An unknown, expired or already-deleted handle is a silent
/// no-op, so deleting twice is harmless.
pub fn delete_message(form: &Dict, state: &mut State) -> (r: MyResult<String>)
    ensures
        ({
            let handle = dict_get(form@, "ReceiptHandle"@);
            match r {
                Err(e) => handle is None && is_missing_param(e, "ReceiptHandle"@) && *final(state)
                    == *old(state),
                Ok(out) => {
                    &&& handle is Some
                    &&& final(state).received_messages@ == remove_key(
                        old(state).received_messages@,
                        handle->0,
                    )
                    &&& meta_response(out@, "<DeleteMessageResponse>"@, "</DeleteMessageResponse>"@)
                    &&& final(state).queues == old(state).queues
                    &&& final(state).topics == old(state).topics
                    &&& final(state).account_id == old(state).account_id
                    &&& final(state).region == old(state).region
                    &&& final(state).endpoint_url == old(state).endpoint_url
                },
            }
        }),
{
    let receipt_handle = match require_param(form, "ReceiptHandle") {
        Ok(v) => v,
        Err(e) => {
            return Err(e);
        },
    };
    state.delete_received_message(&ReceiveHandle(receipt_handle.clone()));
    Ok(finish_response(
        String::from_str("<DeleteMessageResponse>"),
        "</DeleteMessageResponse>",
    ))
}

/// The parsed `VisibilityTimeout` form value, when present and parseable.
pub open spec fn spec_visibility_override(form: Seq<(Seq<char>, Seq<char>)>) -> Option<int> {
    match dict_get(form, "VisibilityTimeout"@) {
        Some(s) => parsed_dec(s, u32::MAX as int),
        None => None,
    }
}

/// The visibility window a queue grants when the request supplies none: its
/// `VisibilityTimeout` attribute when present and parseable, 600 otherwise.
pub open spec fn queue_default_visibility(qattrs: Seq<(Seq<char>, Seq<char>)>) -> int {
    match dict_get(qattrs, "VisibilityTimeout"@) {
        Some(s) => match parsed_dec(s, u32::MAX as int) {
            Some(v) => v,
            None => 600,
        },
        None => 600,
    }
}

/// The window a recording step applies, from the already-parsed override.
pub open spec fn applied_visibility(
    override_seconds: Option<u32>,
    qattrs: Seq<(Seq<char>, Seq<char>)>,
) -> int {
    match override_seconds {
        Some(v) => v as int,
        None => queue_default_visibility(qattrs),
    }
}

/// The visibility window one receive call applies: the request's override
/// when given, else the queue's default.
pub open spec fn effective_visibility(
    form: Seq<(Seq<char>, Seq<char>)>,
    qattrs: Seq<(Seq<char>, Seq<char>)>,
) -> int {
    match spec_visibility_override(form) {
        Some(v) => v,
        None => queue_default_visibility(qattrs),
    }
}

/// What a visibility change leaves of the in-flight table: nothing when no
/// valid timeout was supplied or the handle is unknown; otherwise the one
/// record keeps its message and queue under a restarted window.
pub open spec fn visibility_changed(
    pre: Seq<(ReceiveHandle, crate::state::ReceivedMessage)>,
    post: Seq<(ReceiveHandle, crate::state::ReceivedMessage)>,
    handle: Seq<char>,
    form: Seq<(Seq<char>, Seq<char>)>,
) -> bool {
    if spec_visibility_override(form) is None || !has_key(pre, handle) {
        post == pre
    } else {
        let i = key_index(pre, handle);
        &&& post.len() == pre.len()
        &&& (forall|j: int| 0 <= j < pre.len() && j != i ==> post[j] == pre[j])
        &&& post[i].0 == pre[i].0
        &&& post[i].1.message == pre[i].1.message
        &&& post[i].1.queue_path == pre[i].1.queue_path
        &&& post[i].1.expires as int >= spec_visibility_override(form)->0
    }
}

/// Restart the visibility window of one in-flight delivery. An unknown
/// handle, like a missing or unparseable timeout, is a silent no-op.
pub fn change_message_visibility(form: &Dict, state: &mut State) -> (r: MyResult<String>)
    ensures
        ({
            let handle = dict_get(form@, "ReceiptHandle"@);
            match r {
                Err(e) => handle is None && is_missing_param(e, "ReceiptHandle"@) && *final(state)
                    == *old(state),
                Ok(out) => {
                    &&& handle is Some
                    &&& visibility_changed(
                        old(state).received_messages@,
                        final(state).received_messages@,
                        handle->0,
                        form@,
                    )
                    &&& meta_response(
                        out@,
                        "<ChangeMessageVisibilityResponse>"@,
                        "</ChangeMessageVisibilityResponse>"@,
                    )
                    &&& final(state).queues == old(state).queues
                    &&& final(state).topics == old(state).topics
                    &&& final(state).account_id == old(state).account_id
                    &&& final(state).region == old(state).region
                    &&& final(state).endpoint_url == old(state).endpoint_url
                },
            }
        }),
{
    let receipt_handle = match require_param(form, "ReceiptHandle") {
        Ok(v) => v,
        Err(e) => {
            return Err(e);
        },
    };
    let visibility_timeout_recv: Option<u32> = match form.get("VisibilityTimeout") {
        Some(s) => parse_u32(s.as_str()),
        None => None,
    };
    match visibility_timeout_recv {
        Some(visibility_timeout) => {
            state.change_received_visibility(
                &ReceiveHandle(receipt_handle.clone()),
                visibility_timeout,
            );
        },
        None => {},
    }
    Ok(finish_response(
        String::from_str("<ChangeMessageVisibilityResponse>"),
        "</ChangeMessageVisibilityResponse>",
    ))
}


pub open spec fn send_head(
    body: Seq<char>,
    mattrs: Seq<(Seq<char>, Seq<char>)>,
    message_id: Seq<char>,
) -> Seq<char> {
    "<SendMessageResponse><SendMessageResult><MD5OfMessageBody>"@ + hex_of(
        md5_digest(vstd::utf8::encode_utf8(body)),
    ) + "</MD5OfMessageBody><MD5OfMessageAttributes>"@ + hex_of(md5_digest(attr_bytes(mattrs)))
        + "</MD5OfMessageAttributes><MessageId>"@ + message_id + "</MessageId></SendMessageResult>"@
}

/// Everything one send call leaves behind, up to the randomly drawn message
/// id and receipt handle inside `m`: the enqueued message and the response
/// carrying the content digests and the id.
pub open spec fn send_effect(
    out: Seq<char>,
    body: Seq<char>,
    mattrs: Seq<(Seq<char>, Seq<char>)>,
    pre_q: SQSQueue,
    post_q: SQSQueue,
    m: Message,
) -> bool {
    &&& m@.id.len() == 36
    &&& m@.content == body
    &&& m@.attributes == mattrs
    &&& m@.receive_count == 0
    &&& m@.receipt_handle.len() == 36
    &&& post_q.messages@ == pre_q.messages@.push(m)
    &&& meta_response(out, send_head(body, mattrs, m@.id), "</SendMessageResponse>"@)
}

/// A successful send: the parameters were given, the queue exists, exactly
/// one fresh message was appended to it and its bell cleared, and nothing
/// else moved.
pub open spec fn send_ok(
    form: Seq<(Seq<char>, Seq<char>)>,
    pre: State,
    post: State,
    out: Seq<char>,
) -> bool {
    let url = dict_get(form, "QueueUrl"@);
    let key = queue_path_of(url->0);
    let i = key_index(pre.queues@, key);
    let body = dict_get(form, "MessageBody"@);
    let mattrs = collected_attrs(form, "MessageAttribute."@, 1, Seq::empty());
    &&& url is Some
    &&& body is Some
    &&& has_key(pre.queues@, key)
    &&& post.queues@.len() == pre.queues@.len()
    &&& (forall|j: int|
        0 <= j < pre.queues@.len() && j != i ==> post.queues@[j] == pre.queues@[j])
    &&& post.queues@[i].0 == pre.queues@[i].0
    &&& post.queues@[i].1.name == pre.queues@[i].1.name
    &&& post.queues@[i].1.attributes == pre.queues@[i].1.attributes
    &&& post.queues@[i].1.bell is None
    &&& exists|m: Message|
        #[trigger] send_effect(out, body->0, mattrs, pre.queues@[i].1, post.queues@[i].1, m)
    &&& post.topics == pre.topics
    &&& post.received_messages == pre.received_messages
    &&& post.account_id == pre.account_id
    &&& post.region == pre.region
    &&& post.endpoint_url == pre.endpoint_url
}

/// A failed send: the error the form earns, in parameter order.
pub open spec fn send_err(
    form: Seq<(Seq<char>, Seq<char>)>,
    queues: Seq<(QueuePath, SQSQueue)>,
    e: MyError,
) -> bool {
    let url = dict_get(form, "QueueUrl"@);
    let body = dict_get(form, "MessageBody"@);
    ||| (url is None && is_missing_param(e, "QueueUrl"@))
    ||| (url is Some && body is None && is_missing_param(e, "MessageBody"@))
    ||| (url is Some && body is Some && !has_key(queues, queue_path_of(url->0))
        && is_queue_not_found(e, url->0))
}

/// Append one fresh message to the queue under the given URL, waking a
/// parked consumer; reports the body and attribute digests and the new
/// message's id.
pub fn send_message(form: &Dict, state: &mut State) -> (r: MyResult<String>)
    ensures
        match r {
            Ok(out) => send_ok(form@, *old(state), *final(state), out@),
            Err(e) => *final(state) == *old(state) && send_err(form@, old(state).queues@, e),
        },
{
    let queue_url = match require_param(form, "QueueUrl") {
        Ok(v) => v,
        Err(e) => {
            return Err(e);
        },
    };
    let message_body = match require_param(form, "MessageBody") {
        Ok(v) => v,
        Err(e) => {
            return Err(e);
        },
    };
    let attributes = get_message_attributes(form);
    let path = state.get_queue_path(queue_url.as_str());
    match state.find_queue(&path) {
        None => Err(MyError::QueueNotFound(queue_url.clone())),
        Some(i) => {
            let message = Message::new(message_body.as_str(), attributes);
            let ghost m_snap = message;
            let message_id = message.id.clone();
            let md5_message = message.get_content_md5();
            let md5_attributes = message.get_attribute_md5();
            let entry = state.queues.remove(i);
            let (key, mut q) = entry;
            q.send_message(message);
            state.queues.insert(i, (key, q));
            proof {
                assert(state.queues@ =~= old(state).queues@.update(
                    i as int,
                    state.queues@[i as int],
                ));
            }
            let mut head = String::from_str(
                "<SendMessageResponse><SendMessageResult><MD5OfMessageBody>",
            );
            head.append(md5_message.as_str());
            head.append("</MD5OfMessageBody><MD5OfMessageAttributes>");
            head.append(md5_attributes.as_str());
            head.append("</MD5OfMessageAttributes><MessageId>");
            head.append(message_id.as_str());
            head.append("</MessageId></SendMessageResult>");
            let out = finish_response(head, "</SendMessageResponse>");
            proof {
                assert(send_effect(
                    out@,
                    dict_get(form@, "MessageBody"@)->0,
                    collected_attrs(form@, "MessageAttribute."@, 1, Seq::empty()),
                    old(state).queues@[i as int].1,
                    state.queues@[i as int].1,
                    m_snap,
                ));
                assert(send_ok(form@, *old(state), *state, out@));
            }
            Ok(out)
        },
    }
}

// ---------------------------------------------------------------------------
// Receive.
// ---------------------------------------------------------------------------
/// What one receive call popped, or the waiter it parked instead.
pub enum MessageOrWaiter {
    Message(Vec<Message>),
    Waiter(tokio::sync::oneshot::Receiver<bool>),
}

/// Pop up to `max_count` pending messages from the queue under the given
/// URL, or, when it is empty, park a fresh waiter in its bell slot and hand
/// back the receiver to block on.
pub fn get_message_or_waiter(queue_url: &str, max_count: u8, state: &mut State) -> (r: MyResult<
    MessageOrWaiter,
>)
    ensures
        ({
            let key = queue_path_of(queue_url@);
            let i = key_index(old(state).queues@, key);
            match r {
                Err(e) => *final(state) == *old(state) && !has_key(old(state).queues@, key)
                    && is_queue_not_found(e, queue_url@),
                Ok(mw) => {
                    &&& has_key(old(state).queues@, key)
                    &&& final(state).queues@.len() == old(state).queues@.len()
                    &&& (forall|j: int|
                        0 <= j < old(state).queues@.len() && j != i ==> final(state).queues@[j]
                            == old(state).queues@[j])
                    &&& final(state).queues@[i].0 == old(state).queues@[i].0
                    &&& final(state).queues@[i].1.name == old(state).queues@[i].1.name
                    &&& final(state).queues@[i].1.attributes == old(state).queues@[i].1.attributes
                    &&& match mw {
                        MessageOrWaiter::Message(msgs) => {
                            let n = vstd::math::min(
                                max_count as int,
                                old(state).queues@[i].1.messages@.len() as int,
                            );
                            &&& old(state).queues@[i].1.messages@.len() > 0
                            &&& msgs@ == old(state).queues@[i].1.messages@.take(n)
                            &&& final(state).queues@[i].1.messages@ == old(
                                state,
                            ).queues@[i].1.messages@.skip(n)
                            &&& final(state).queues@[i].1.bell == old(state).queues@[i].1.bell
                        },
                        MessageOrWaiter::Waiter(_) => {
                            &&& old(state).queues@[i].1.messages@.len() == 0
                            &&& final(state).queues@[i].1.messages == old(
                                state,
                            ).queues@[i].1.messages
                            &&& final(state).queues@[i].1.bell is Some
                        },
                    }
                    &&& final(state).topics == old(state).topics
                    &&& final(state).received_messages == old(state).received_messages
                    &&& final(state).account_id == old(state).account_id
                    &&& final(state).region == old(state).region
                    &&& final(state).endpoint_url == old(state).endpoint_url
                },
            }
        }),
{
    let path = state.get_queue_path(queue_url);
    match state.find_queue(&path) {
        None => Err(MyError::QueueNotFound(String::from_str(queue_url))),
        Some(i) => {
            let entry = state.queues.remove(i);
            let (key, mut q) = entry;
            let r = if q.has_message() {
                MessageOrWaiter::Message(q.receive_messages(max_count))
            } else {
                MessageOrWaiter::Waiter(q.get_waiter())
            };
            state.queues.insert(i, (key, q));
            proof {
                assert(state.queues@ =~= old(state).queues@.update(
                    i as int,
                    state.queues@[i as int],
                ));
            }
            Ok(r)
        },
    }
}

/// The delivery count after one more delivery, capped at the counter's top.
pub open spec fn bumped_count(c: u8) -> u8 {
    if c < 255 {
        (c + 1) as u8
    } else {
        255
    }
}

/// The view a popped message is delivered with: the same payload, its
/// delivery count bumped, and the fresh receipt handle `handle`.
pub open spec fn delivered_view(orig: MessageView, handle: Seq<char>) -> MessageView {
    MessageView {
        id: orig.id,
        content: orig.content,
        attributes: orig.attributes,
        receive_count: bumped_count(orig.receive_count),
        receipt_handle: handle,
    }
}

/// The `<Message>` elements of the delivered messages, in delivery order.
pub open spec fn msgs_xml(ms: Seq<Message>, names: Seq<Seq<char>>) -> Seq<char>
    decreases ms.len(),
{
    if ms.len() == 0 {
        Seq::empty()
    } else {
        msgs_xml(ms.drop_last(), names) + crate::state::message_xml(ms.last()@, names)
    }
}

pub open spec fn receive_head(ms: Seq<Message>, names: Seq<Seq<char>>) -> Seq<char> {
    "<ReceiveMessageResponse><ReceiveMessageResult>"@ + msgs_xml(ms, names)
        + "</ReceiveMessageResult>"@
}

/// No two delivered messages carry the same receipt handle.
pub open spec fn handles_distinct(ms: Seq<Message>) -> bool {
    forall|k1: int, k2: int|
        0 <= k1 < k2 < ms.len() ==> (#[trigger] ms[k1])@.receipt_handle != (
        #[trigger] ms[k2])@.receipt_handle
}

/// What recording and rendering a batch of popped messages leaves behind:
/// each delivered message is the popped one under a fresh handle; every
/// delivered handle is in flight, bound to a record owned by queue `key`
/// whose visibility window reaches at least `vis` past the epoch, and (when
/// no freshly drawn handles collided) to a copy of its own message; every
/// record in flight before the call is still in flight, and those not under
/// a fresh handle are untouched; and the response lists the delivered
/// messages.
pub open spec fn receive_delivery(
    out: Seq<char>,
    popped: Seq<Message>,
    pre_recs: Seq<(ReceiveHandle, crate::state::ReceivedMessage)>,
    post_recs: Seq<(ReceiveHandle, crate::state::ReceivedMessage)>,
    key: Seq<char>,
    names: Seq<Seq<char>>,
    vis: int,
    delivered: Seq<Message>,
) -> bool {
    &&& delivered.len() == popped.len()
    &&& (forall|k: int|
        0 <= k < delivered.len() ==> (#[trigger] delivered[k])@ == delivered_view(
            popped[k]@,
            delivered[k]@.receipt_handle,
        ) && delivered[k]@.receipt_handle.len() == 36)
    &&& (forall|k: int|
        0 <= k < delivered.len() ==> has_key(post_recs, (#[trigger] delivered[k])@.receipt_handle))
    &&& (forall|k: int|
        0 <= k < delivered.len() ==> {
            let rec = val_of(post_recs, (#[trigger] delivered[k])@.receipt_handle);
            &&& rec.queue_path@ == key
            &&& rec.expires as int >= vis
        })
    &&& (handles_distinct(delivered) ==> forall|k: int|
        0 <= k < delivered.len() ==> {
            let rec = val_of(post_recs, (#[trigger] delivered[k])@.receipt_handle);
            &&& rec.message@.id == delivered[k]@.id
            &&& rec.message@.content == delivered[k]@.content
            &&& rec.message@.attributes == delivered[k]@.attributes
            &&& rec.message@.receive_count == delivered[k]@.receive_count
        })
    &&& (forall|key2: Seq<char>| #[trigger] has_key(pre_recs, key2) ==> has_key(post_recs, key2))
    &&& (forall|key2: Seq<char>|
        (#[trigger] has_key(pre_recs, key2)) && (forall|k: int|
            0 <= k < delivered.len() ==> (#[trigger] delivered[k])@.receipt_handle != key2)
            ==> val_of(post_recs, key2) == val_of(pre_recs, key2))
    &&& pre_recs.len() <= post_recs.len() <= pre_recs.len() + delivered.len()
    &&& meta_response(out, receive_head(delivered, names), "</ReceiveMessageResponse>"@)
}

/// Record each popped message as one in-flight delivery and render the
/// response: the delivery counts are bumped, fresh receipt handles minted,
/// each record's visibility window reaches at least the applied timeout (the
/// request's override, else the queue's default), and the messages listed.
fn finish_receive(
    path: &QueuePath,
    messages: Vec<Message>,
    visibility_override: Option<u32>,
    attribute_names: &Vec<String>,
    state: &mut State,
) -> (r: String)
    requires
        has_key(old(state).queues@, path@),
    ensures
        final(state).queues == old(state).queues,
        final(state).topics == old(state).topics,
        final(state).account_id == old(state).account_id,
        final(state).region == old(state).region,
        final(state).endpoint_url == old(state).endpoint_url,
        exists|delivered: Seq<Message>|
            #[trigger] receive_delivery(
                r@,
                messages@,
                old(state).received_messages@,
                final(state).received_messages@,
                path@,
                attribute_names.deep_view(),
                applied_visibility(
                    visibility_override,
                    val_of(old(state).queues@, path@).attributes@,
                ),
                delivered,
            ),
{
    let ghost vis: int = applied_visibility(
        visibility_override,
        val_of(old(state).queues@, path@).attributes@,
    );
    let visibility_timeout: u32 = {
        let qi = match state.find_queue(path) {
            Some(qi) => qi,
            None => {
                proof {
                    assert(false);
                }
                0
            },
        };
        proof {
            crate::state::lemma_key_index(state.queues@, path@);
        }
        let vt_queue = match state.queues[qi].1.attributes.get("VisibilityTimeout") {
            Some(attr) => match parse_u32(attr.as_str()) {
                Some(v) => v,
                None => 600,
            },
            None => 600,
        };
        match visibility_override {
            Some(v) => v,
            None => vt_queue,
        }
    };
    proof {
        assert(visibility_timeout as int == vis);
    }
    let ghost orig = messages@;
    let ghost pre_recs = state.received_messages@;
    let mut messages = messages;
    let mut out_msgs: Vec<Message> = Vec::new();
    let ghost mut done: int = 0;
    while messages.len() > 0
        invariant
            messages@ =~= orig.skip(done),
            0 <= done <= orig.len(),
            out_msgs@.len() == done,
            pre_recs == old(state).received_messages@,
            forall|k: int|
                0 <= k < done ==> (#[trigger] out_msgs@[k])@ == delivered_view(
                    orig[k]@,
                    out_msgs@[k]@.receipt_handle,
                ) && out_msgs@[k]@.receipt_handle.len() == 36,
            forall|k: int|
                0 <= k < done ==> has_key(
                    state.received_messages@,
                    (#[trigger] out_msgs@[k])@.receipt_handle,
                ),
            forall|k: int|
                0 <= k < done ==> ((forall|k2: int|
                    k < k2 < done ==> (#[trigger] out_msgs@[k2])@.receipt_handle != out_msgs@[
                        k
                    ]@.receipt_handle) ==> {
                    let rec = val_of(
                        state.received_messages@,
                        (#[trigger] out_msgs@[k])@.receipt_handle,
                    );
                    &&& rec.message@.id == out_msgs@[k]@.id
                    &&& rec.message@.content == out_msgs@[k]@.content
                    &&& rec.message@.attributes == out_msgs@[k]@.attributes
                    &&& rec.message@.receive_count == out_msgs@[k]@.receive_count
                }),
            visibility_timeout as int == vis,
            forall|k: int|
                0 <= k < done ==> {
                    let rec = val_of(
                        state.received_messages@,
                        (#[trigger] out_msgs@[k])@.receipt_handle,
                    );
                    &&& rec.queue_path@ == path@
                    &&& rec.expires as int >= vis
                },
            forall|key2: Seq<char>| #[trigger]
                has_key(pre_recs, key2) ==> has_key(state.received_messages@, key2),
            forall|key2: Seq<char>|
                (#[trigger] has_key(pre_recs, key2)) && (forall|k: int|
                    0 <= k < done ==> (#[trigger] out_msgs@[k])@.receipt_handle != key2) ==> val_of(
                    state.received_messages@,
                    key2,
                ) == val_of(pre_recs, key2),
            pre_recs.len() <= state.received_messages@.len() <= pre_recs.len() + done,
            state.queues == old(state).queues,
            state.topics == old(state).topics,
            state.account_id == old(state).account_id,
            state.region == old(state).region,
            state.endpoint_url == old(state).endpoint_url,
        decreases messages@.len(),
    {
        let mut m = messages.remove(0);
        let ghost m0 = m;
        proof {
            assert(m0 == orig[done]);
        }
        m.receive_count = if m.receive_count < 255 {
            m.receive_count + 1
        } else {
            255
        };
        let copy = m.clone();
        let ghost copy_snap = copy;
        let ghost recs_before = state.received_messages@;
        let handle = state.add_received_message(copy, path.clone(), visibility_timeout);
        let ghost h_snap = handle;
        m.receipt_handle = handle;
        let ghost m_snap = m;
        let ghost prev_out = out_msgs@;
        out_msgs.push(m);
        proof {
            let rec = choose|rec: crate::state::ReceivedMessage|
                rec.message == copy_snap && rec.queue_path == *path && rec.expires
                    >= visibility_timeout as u64 && state.received_messages@
                    == crate::state::insert_entry(recs_before, h_snap, rec);
            crate::state::lemma_insert_entry(recs_before, h_snap, rec);
            done = done + 1;
            assert(messages@ =~= orig.skip(done));
            assert(out_msgs@[done - 1] == m_snap);
            assert(m_snap@ == delivered_view(orig[done - 1]@, h_snap@));
            assert(val_of(state.received_messages@, h_snap@) == rec);
            assert(rec.message@ == copy_snap@);
            assert(forall|k: int| 0 <= k < done - 1 ==> out_msgs@[k] == prev_out[k]);
            assert forall|k: int| 0 <= k < done implies has_key(
                state.received_messages@,
                (#[trigger] out_msgs@[k])@.receipt_handle,
            ) by {
                if k < done - 1 {
                    if out_msgs@[k]@.receipt_handle != h_snap@ {
                        assert(has_key(recs_before, out_msgs@[k]@.receipt_handle));
                    }
                }
            }
            assert forall|k: int|
                0 <= k < done implies {
                let r2 = val_of(
                    state.received_messages@,
                    (#[trigger] out_msgs@[k])@.receipt_handle,
                );
                &&& r2.queue_path@ == path@
                &&& r2.expires as int >= vis
            } by {
                if k == done - 1 {
                    assert(val_of(state.received_messages@, out_msgs@[k]@.receipt_handle)
                        == rec);
                } else {
                    if out_msgs@[k]@.receipt_handle == h_snap@ {
                        assert(val_of(state.received_messages@, out_msgs@[k]@.receipt_handle)
                            == rec);
                    } else {
                        assert(val_of(state.received_messages@, out_msgs@[k]@.receipt_handle)
                            == val_of(recs_before, out_msgs@[k]@.receipt_handle));
                    }
                }
            }
            assert forall|key2: Seq<char>|
                (#[trigger] has_key(pre_recs, key2)) && (forall|k: int|
                    0 <= k < done ==> (#[trigger] out_msgs@[k])@.receipt_handle != key2) implies
                val_of(state.received_messages@, key2) == val_of(pre_recs, key2) by {
                assert(out_msgs@[done - 1]@.receipt_handle != key2);
                assert(key2 != h_snap@);
                assert(forall|k: int|
                    0 <= k < done - 1 ==> (#[trigger] prev_out[k])@.receipt_handle != key2);
                assert(val_of(recs_before, key2) == val_of(pre_recs, key2));
                assert(has_key(recs_before, key2));
                assert(val_of(state.received_messages@, key2) == val_of(recs_before, key2));
            }
            assert forall|k: int|
                0 <= k < done implies ((forall|k2: int|
                    k < k2 < done ==> (#[trigger] out_msgs@[k2])@.receipt_handle != out_msgs@[
                        k
                    ]@.receipt_handle) ==> {
                    let r2 = val_of(
                        state.received_messages@,
                        (#[trigger] out_msgs@[k])@.receipt_handle,
                    );
                    &&& r2.message@.id == out_msgs@[k]@.id
                    &&& r2.message@.content == out_msgs@[k]@.content
                    &&& r2.message@.attributes == out_msgs@[k]@.attributes
                    &&& r2.message@.receive_count == out_msgs@[k]@.receive_count
                }) by {
                if (forall|k2: int|
                    k < k2 < done ==> (#[trigger] out_msgs@[k2])@.receipt_handle != out_msgs@[
                        k
                    ]@.receipt_handle) {
                    if k == done - 1 {
                        assert(val_of(state.received_messages@, out_msgs@[k]@.receipt_handle)
                            == rec);
                    } else {
                        assert(out_msgs@[done - 1]@.receipt_handle != out_msgs@[
                            k
                        ]@.receipt_handle);
                        assert(out_msgs@[k]@.receipt_handle != h_snap@);
                        assert(forall|k2: int|
                            k < k2 < done - 1 ==> (#[trigger] prev_out[k2])@.receipt_handle
                                != prev_out[k]@.receipt_handle);
                        assert(has_key(recs_before, out_msgs@[k]@.receipt_handle));
                        assert(val_of(state.received_messages@, out_msgs@[k]@.receipt_handle)
                            == val_of(recs_before, out_msgs@[k]@.receipt_handle));
                    }
                }
            }
        }
    }
    let mut head = String::from_str("<ReceiveMessageResponse><ReceiveMessageResult>");
    let mut i: usize = 0;
    while i < out_msgs.len()
        invariant
            i <= out_msgs@.len(),
            head@ =~= "<ReceiveMessageResponse><ReceiveMessageResult>"@ + msgs_xml(
                out_msgs@.take(i as int),
                attribute_names.deep_view(),
            ),
        decreases out_msgs@.len() - i,
    {
        proof {
            let t = out_msgs@.take(i + 1);
            assert(t.drop_last() =~= out_msgs@.take(i as int));
            assert(t.last() == out_msgs@[i as int]);
        }
        let piece = out_msgs[i].get_message_xml(attribute_names);
        head.append(piece.as_str());
        i += 1;
        assert(head@ =~= "<ReceiveMessageResponse><ReceiveMessageResult>"@ + msgs_xml(
            out_msgs@.take(i as int),
            attribute_names.deep_view(),
        ));
    }
    proof {
        assert(out_msgs@.take(out_msgs@.len() as int) =~= out_msgs@);
    }
    head.append("</ReceiveMessageResult>");
    let out = finish_response(head, "</ReceiveMessageResponse>");
    proof {
        assert(orig.skip(done) =~= Seq::<Message>::empty());
        assert(orig.take(done) =~= orig);
        assert(receive_delivery(
            out@,
            orig,
            pre_recs,
            state.received_messages@,
            path@,
            attribute_names.deep_view(),
            applied_visibility(visibility_override, val_of(old(state).queues@, path@).attributes@),
            out_msgs@,
        ));
    }
    out
}


/// The requested batch size, clamped: a missing or unparseable value, or one
/// outside [1, 10], falls back to 1.
pub open spec fn clamped_max_count(form: Seq<(Seq<char>, Seq<char>)>) -> int {
    let n = match dict_get(form, "MaxNumberOfMessages"@) {
        Some(s) => match parsed_dec(s, u8::MAX as int) {
            Some(v) => v,
            None => 1,
        },
        None => 1,
    };
    if n > 10 || n < 1 {
        1
    } else {
        n
    }
}

/// The requested long-poll window in seconds; missing or unparseable means 0.
pub open spec fn spec_wait_seconds(form: Seq<(Seq<char>, Seq<char>)>) -> int {
    match dict_get(form, "WaitTimeSeconds"@) {
        Some(s) => match parsed_dec(s, u64::MAX as int) {
            Some(v) => v,
            None => 0,
        },
        None => 0,
    }
}

/// The parsed knobs of one receive request.
pub struct ReceiveParams {
    pub max_count: u8,
    pub wait_time_seconds: u64,
    pub visibility_timeout: Option<u32>,
    pub attribute_names: Vec<String>,
}

/// Read and clamp the receive knobs from the request form.
pub fn get_receive_params(form: &Dict) -> (r: ReceiveParams)
    ensures
        r.max_count as int == clamped_max_count(form@),
        r.wait_time_seconds as int == spec_wait_seconds(form@),
        match r.visibility_timeout {
            Some(v) => spec_visibility_override(form@) == Some(v as int),
            None => spec_visibility_override(form@) is None,
        },
        r.attribute_names.deep_view() == collected_names(form@, "MessageAttribute."@, 1),
        1 <= r.max_count <= 10,
{
    let mut max_count: u8 = match form.get("MaxNumberOfMessages") {
        Some(s) => match parse_u8(s.as_str()) {
            Some(v) => v,
            None => 1,
        },
        None => 1,
    };
    if max_count > 10 || max_count < 1 {
        max_count = 1;
    }
    let wait_time_seconds: u64 = match form.get("WaitTimeSeconds") {
        Some(s) => match parse_u64(s.as_str()) {
            Some(v) => v,
            None => 0,
        },
        None => 0,
    };
    let visibility_timeout: Option<u32> = match form.get("VisibilityTimeout") {
        Some(s) => parse_u32(s.as_str()),
        None => None,
    };
    let attribute_names = get_message_attribute_names(form);
    ReceiveParams { max_count, wait_time_seconds, visibility_timeout, attribute_names }
}

/// A failed receive: the error the form earns.
pub open spec fn receive_err(
    form: Seq<(Seq<char>, Seq<char>)>,
    queues: Seq<(QueuePath, SQSQueue)>,
    e: MyError,
) -> bool {
    let url = dict_get(form, "QueueUrl"@);
    ||| (url is None && is_missing_param(e, "QueueUrl"@))
    ||| (url is Some && !has_key(queues, queue_path_of(url->0)) && is_queue_not_found(e, url->0))
}

/// A receive that produced a response: up to the requested count of pending
/// messages popped in FIFO order, each recorded in flight under a fresh
/// handle with a visibility window of at least the effective timeout, and
/// the response listing them. When nothing was pending, the queue keeps its
/// messages, a waiter stays parked in its bell, and the response is empty.
pub open spec fn receive_ok(
    form: Seq<(Seq<char>, Seq<char>)>,
    pre: State,
    post: State,
    out: Seq<char>,
) -> bool {
    let url = dict_get(form, "QueueUrl"@);
    let key = queue_path_of(url->0);
    let i = key_index(pre.queues@, key);
    let n = vstd::math::min(clamped_max_count(form), pre.queues@[i].1.messages@.len() as int);
    let names = collected_names(form, "MessageAttribute."@, 1);
    &&& url is Some
    &&& has_key(pre.queues@, key)
    &&& post.queues@.len() == pre.queues@.len()
    &&& (forall|j: int|
        0 <= j < pre.queues@.len() && j != i ==> post.queues@[j] == pre.queues@[j])
    &&& post.queues@[i].0 == pre.queues@[i].0
    &&& post.queues@[i].1.name == pre.queues@[i].1.name
    &&& post.queues@[i].1.attributes == pre.queues@[i].1.attributes
    &&& post.queues@[i].1.messages@ == pre.queues@[i].1.messages@.skip(n)
    &&& (n > 0 ==> post.queues@[i].1.bell == pre.queues@[i].1.bell)
    &&& (n == 0 ==> post.queues@[i].1.bell is Some)
    &&& post.topics == pre.topics
    &&& post.account_id == pre.account_id
    &&& post.region == pre.region
    &&& post.endpoint_url == pre.endpoint_url
    &&& exists|delivered: Seq<Message>|
        #[trigger] receive_delivery(
            out,
            pre.queues@[i].1.messages@.take(n),
            pre.received_messages@,
            post.received_messages@,
            key,
            names,
            effective_visibility(form, pre.queues@[i].1.attributes@),
            delivered,
        )
}

/// A receive that parked instead of answering: the queue was empty, a window
/// was requested, a waiter now sits in the bell, and nothing else moved.
pub open spec fn receive_parked(
    form: Seq<(Seq<char>, Seq<char>)>,
    pre: State,
    post: State,
    wait: int,
) -> bool {
    let url = dict_get(form, "QueueUrl"@);
    let key = queue_path_of(url->0);
    let i = key_index(pre.queues@, key);
    &&& url is Some
    &&& has_key(pre.queues@, key)
    &&& pre.queues@[i].1.messages@.len() == 0
    &&& wait == spec_wait_seconds(form)
    &&& wait > 0
    &&& post.queues@.len() == pre.queues@.len()
    &&& (forall|j: int|
        0 <= j < pre.queues@.len() && j != i ==> post.queues@[j] == pre.queues@[j])
    &&& post.queues@[i].0 == pre.queues@[i].0
    &&& post.queues@[i].1.name == pre.queues@[i].1.name
    &&& post.queues@[i].1.attributes == pre.queues@[i].1.attributes
    &&& post.queues@[i].1.messages == pre.queues@[i].1.messages
    &&& post.queues@[i].1.bell is Some
    &&& post.topics == pre.topics
    &&& post.received_messages == pre.received_messages
    &&& post.account_id == pre.account_id
    &&& post.region == pre.region
    &&& post.endpoint_url == pre.endpoint_url
}

/// What one receive call decided: an immediate response, or a parked waiter
/// to block on for up to the given number of seconds before resuming.
pub enum ReceiveOutcome {
    Response(String),
    Wait(tokio::sync::oneshot::Receiver<bool>, u64),
}

/// Begin one receive call. Messages pending means they are delivered at
/// once; an empty queue with a wait window parks a waiter and hands back the
/// receiver to block on; an empty queue without a window answers empty.
pub fn receive_message_start(form: &Dict, state: &mut State) -> (r: MyResult<ReceiveOutcome>)
    ensures
        match r {
            Err(e) => *final(state) == *old(state) && receive_err(form@, old(state).queues@, e),
            Ok(oc) => match oc {
                ReceiveOutcome::Response(out) => receive_ok(form@, *old(state), *final(state), out@)
                    && (spec_wait_seconds(form@) == 0 || vstd::math::min(
                    clamped_max_count(form@),
                    old(state).queues@[key_index(
                        old(state).queues@,
                        queue_path_of(dict_get(form@, "QueueUrl"@)->0),
                    )].1.messages@.len() as int,
                ) > 0),
                ReceiveOutcome::Wait(_, w) => receive_parked(
                    form@,
                    *old(state),
                    *final(state),
                    w as int,
                ),
            },
        },
{
    let queue_url = match require_param(form, "QueueUrl") {
        Ok(v) => v.clone(),
        Err(e) => {
            return Err(e);
        },
    };
    let params = get_receive_params(form);
    let ghost pre = *state;
    match get_message_or_waiter(queue_url.as_str(), params.max_count, state) {
        Err(e) => Err(e),
        Ok(MessageOrWaiter::Message(msgs)) => {
            let ghost msgs_snap = msgs@;
            let path = state.get_queue_path(queue_url.as_str());
            proof {
                crate::state::lemma_key_index(pre.queues@, path@);
                crate::state::lemma_key_index(state.queues@, path@);
                assert(state.queues@[key_index(pre.queues@, path@)].0@ == path@);
                assert(has_key(state.queues@, path@));
            }
            let ghost recs_mid = state.received_messages@;
            let ghost qs_mid = state.queues@;
            let out = finish_receive(
                &path,
                msgs,
                params.visibility_timeout,
                &params.attribute_names,
                state,
            );
            proof {
                let d = choose|d: Seq<Message>|
                    receive_delivery(
                        out@,
                        msgs_snap,
                        recs_mid,
                        state.received_messages@,
                        path@,
                        params.attribute_names.deep_view(),
                        applied_visibility(params.visibility_timeout, val_of(qs_mid, path@).attributes@),
                        d,
                    );
                let key = queue_path_of(dict_get(form@, "QueueUrl"@)->0);
                let i = key_index(pre.queues@, key);
                let n = vstd::math::min(
                    clamped_max_count(form@),
                    pre.queues@[i].1.messages@.len() as int,
                );
                assert forall|j: int|
                    0 <= j < pre.queues@.len() implies qs_mid[j].0@ == pre.queues@[j].0@ by {}
                crate::state::lemma_key_index_same_keys(qs_mid, pre.queues@, path@);
                assert(val_of(qs_mid, path@).attributes == val_of(pre.queues@, path@).attributes);
                assert(val_of(pre.queues@, path@) == pre.queues@[i].1);
                assert(applied_visibility(params.visibility_timeout, val_of(qs_mid, path@).attributes@)
                    == effective_visibility(form@, pre.queues@[i].1.attributes@));
                assert(receive_delivery(
                    out@,
                    pre.queues@[i].1.messages@.take(n),
                    pre.received_messages@,
                    state.received_messages@,
                    key,
                    collected_names(form@, "MessageAttribute."@, 1),
                    effective_visibility(form@, pre.queues@[i].1.attributes@),
                    d,
                ));
                assert(receive_ok(form@, pre, *state, out@));
            }
            Ok(ReceiveOutcome::Response(out))
        },
        Ok(MessageOrWaiter::Waiter(w)) => {
            if params.wait_time_seconds > 0 {
                Ok(ReceiveOutcome::Wait(w, params.wait_time_seconds))
            } else {
                let path = state.get_queue_path(queue_url.as_str());
                proof {
                    crate::state::lemma_key_index(pre.queues@, path@);
                    crate::state::lemma_key_index(state.queues@, path@);
                    assert(state.queues@[key_index(pre.queues@, path@)].0@ == path@);
                    assert(has_key(state.queues@, path@));
                }
                let ghost recs_mid = state.received_messages@;
                let ghost qs_mid = state.queues@;
                let empty_in: Vec<Message> = Vec::new();
                let ghost empty_snap = empty_in@;
                let out = finish_receive(
                    &path,
                    empty_in,
                    params.visibility_timeout,
                    &params.attribute_names,
                    state,
                );
                proof {
                    let d = choose|d: Seq<Message>|
                        receive_delivery(
                            out@,
                            empty_snap,
                            recs_mid,
                            state.received_messages@,
                            path@,
                            params.attribute_names.deep_view(),
                            applied_visibility(params.visibility_timeout, val_of(qs_mid, path@).attributes@),
                            d,
                        );
                    let key = queue_path_of(dict_get(form@, "QueueUrl"@)->0);
                    let i = key_index(pre.queues@, key);
                    let n = vstd::math::min(
                        clamped_max_count(form@),
                        pre.queues@[i].1.messages@.len() as int,
                    );
                    assert(n == 0);
                    assert(pre.queues@[i].1.messages@.take(n) =~= empty_snap);
                    assert(pre.queues@[i].1.messages@.skip(n) =~= pre.queues@[i].1.messages@);
                    assert forall|j: int|
                        0 <= j < pre.queues@.len() implies qs_mid[j].0@ == pre.queues@[j].0@ by {}
                    crate::state::lemma_key_index_same_keys(qs_mid, pre.queues@, path@);
                    assert(val_of(qs_mid, path@).attributes == val_of(pre.queues@, path@).attributes);
                    assert(val_of(pre.queues@, path@) == pre.queues@[i].1);
                    assert(applied_visibility(params.visibility_timeout, val_of(qs_mid, path@).attributes@)
                        == effective_visibility(form@, pre.queues@[i].1.attributes@));
                    assert(receive_delivery(
                        out@,
                        pre.queues@[i].1.messages@.take(n),
                        pre.received_messages@,
                        state.received_messages@,
                        key,
                        collected_names(form@, "MessageAttribute."@, 1),
                        effective_visibility(form@, pre.queues@[i].1.attributes@),
                        d,
                    ));
                    assert(receive_ok(form@, pre, *state, out@));
                }
                Ok(ReceiveOutcome::Response(out))
            }
        },
    }
}

/// Finish one receive call after its waiter was woken or timed out: pop and
/// deliver whatever is pending now, which may be nothing if another consumer
/// drained the queue first.
pub fn receive_message_resume(form: &Dict, state: &mut State) -> (r: MyResult<String>)
    ensures
        match r {
            Err(e) => *final(state) == *old(state) && receive_err(form@, old(state).queues@, e),
            Ok(out) => receive_ok(form@, *old(state), *final(state), out@),
        },
{
    let queue_url = match require_param(form, "QueueUrl") {
        Ok(v) => v.clone(),
        Err(e) => {
            return Err(e);
        },
    };
    let params = get_receive_params(form);
    let ghost pre = *state;
    match get_message_or_waiter(queue_url.as_str(), params.max_count, state) {
        Err(e) => Err(e),
        Ok(MessageOrWaiter::Message(msgs)) => {
            let ghost msgs_snap = msgs@;
            let path = state.get_queue_path(queue_url.as_str());
            proof {
                crate::state::lemma_key_index(pre.queues@, path@);
                crate::state::lemma_key_index(state.queues@, path@);
                assert(state.queues@[key_index(pre.queues@, path@)].0@ == path@);
                assert(has_key(state.queues@, path@));
            }
            let ghost recs_mid = state.received_messages@;
            let ghost qs_mid = state.queues@;
            let out = finish_receive(
                &path,
                msgs,
                params.visibility_timeout,
                &params.attribute_names,
                state,
            );
            proof {
                let d = choose|d: Seq<Message>|
                    receive_delivery(
                        out@,
                        msgs_snap,
                        recs_mid,
                        state.received_messages@,
                        path@,
                        params.attribute_names.deep_view(),
                        applied_visibility(params.visibility_timeout, val_of(qs_mid, path@).attributes@),
                        d,
                    );
                let key = queue_path_of(dict_get(form@, "QueueUrl"@)->0);
                let i = key_index(pre.queues@, key);
                let n = vstd::math::min(
                    clamped_max_count(form@),
                    pre.queues@[i].1.messages@.len() as int,
                );
                assert forall|j: int|
                    0 <= j < pre.queues@.len() implies qs_mid[j].0@ == pre.queues@[j].0@ by {}
                crate::state::lemma_key_index_same_keys(qs_mid, pre.queues@, path@);
                assert(val_of(qs_mid, path@).attributes == val_of(pre.queues@, path@).attributes);
                assert(val_of(pre.queues@, path@) == pre.queues@[i].1);
                assert(applied_visibility(params.visibility_timeout, val_of(qs_mid, path@).attributes@)
                    == effective_visibility(form@, pre.queues@[i].1.attributes@));
                assert(receive_delivery(
                    out@,
                    pre.queues@[i].1.messages@.take(n),
                    pre.received_messages@,
                    state.received_messages@,
                    key,
                    collected_names(form@, "MessageAttribute."@, 1),
                    effective_visibility(form@, pre.queues@[i].1.attributes@),
                    d,
                ));
                assert(receive_ok(form@, pre, *state, out@));
            }
            Ok(out)
        },
        Ok(MessageOrWaiter::Waiter(_)) => {
            let path = state.get_queue_path(queue_url.as_str());
            proof {
                crate::state::lemma_key_index(pre.queues@, path@);
                crate::state::lemma_key_index(state.queues@, path@);
                assert(state.queues@[key_index(pre.queues@, path@)].0@ == path@);
                assert(has_key(state.queues@, path@));
            }
            let ghost recs_mid = state.received_messages@;
            let ghost qs_mid = state.queues@;
            let empty_in: Vec<Message> = Vec::new();
            let ghost empty_snap = empty_in@;
            let out = finish_receive(
                &path,
                empty_in,
                params.visibility_timeout,
                &params.attribute_names,
                state,
            );
            proof {
                let d = choose|d: Seq<Message>|
                    receive_delivery(
                        out@,
                        empty_snap,
                        recs_mid,
                        state.received_messages@,
                        path@,
                        params.attribute_names.deep_view(),
                        applied_visibility(params.visibility_timeout, val_of(qs_mid, path@).attributes@),
                        d,
                    );
                let key = queue_path_of(dict_get(form@, "QueueUrl"@)->0);
                let i = key_index(pre.queues@, key);
                let n = vstd::math::min(
                    clamped_max_count(form@),
                    pre.queues@[i].1.messages@.len() as int,
                );
                assert(n == 0);
                assert(pre.queues@[i].1.messages@.take(n) =~= empty_snap);
                assert(pre.queues@[i].1.messages@.skip(n) =~= pre.queues@[i].1.messages@);
                assert forall|j: int|
                    0 <= j < pre.queues@.len() implies qs_mid[j].0@ == pre.queues@[j].0@ by {}
                crate::state::lemma_key_index_same_keys(qs_mid, pre.queues@, path@);
                assert(val_of(qs_mid, path@).attributes == val_of(pre.queues@, path@).attributes);
                assert(val_of(pre.queues@, path@) == pre.queues@[i].1);
                assert(applied_visibility(params.visibility_timeout, val_of(qs_mid, path@).attributes@)
                    == effective_visibility(form@, pre.queues@[i].1.attributes@));
                assert(receive_delivery(
                    out@,
                    pre.queues@[i].1.messages@.take(n),
                    pre.received_messages@,
                    state.received_messages@,
                    key,
                    collected_names(form@, "MessageAttribute."@, 1),
                    effective_visibility(form@, pre.queues@[i].1.attributes@),
                    d,
                ));
                assert(receive_ok(form@, pre, *state, out@));
            }
            Ok(out)
        },
    }
}

} // verus!
