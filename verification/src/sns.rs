use vstd::prelude::*;

use crate::dict::{dict_get, Dict};
use crate::errors::{is_missing_param, is_topic_not_found, require_param, MyError, MyResult};
use crate::misc::{collected_attrs, escape_seq, escape_xml, get_attributes, get_message_attributes};
use crate::state::{
    has_key, key_index, queue_path_of, remove_key, subscription_xml_of, topic_arn_of, val_of,
    has_sub_pair, Message, MessageView, SNSSubscription, SNSTopic, SQSQueue, State, QueuePath,
    TopicArn,
};
use crate::xml::{escaped_attrs_xml, finish_response, meta_response};

verus! {

/// One `<Topic>` element per registered topic, carrying its ARN, escaped:
/// the ARN embeds the user-chosen topic name, so it passes through the XML
/// escaper like every other value at the markup boundary.
pub open spec fn topics_xml(ts: Seq<(TopicArn, SNSTopic)>) -> Seq<char>
    decreases ts.len(),
{
    if ts.len() == 0 {
        Seq::empty()
    } else {
        topics_xml(ts.drop_last()) + "<Topic><TopicArn>"@ + escape_seq(ts.last().1.arn@)
            + "</TopicArn></Topic>"@
    }
}

pub open spec fn list_topics_head(ts: Seq<(TopicArn, SNSTopic)>) -> Seq<char> {
    "<ListTopicsResponse><ListTopicsResult><Topics>"@ + topics_xml(ts)
        + "</Topics></ListTopicsResult>"@
}

/// List the ARN of every registered topic.
pub fn list_topics(_form: &Dict, state: &State) -> (r: MyResult<String>)
    ensures
        r is Ok,
        meta_response(r->Ok_0@, list_topics_head(state.topics@), "</ListTopicsResponse>"@),
{
    let mut head = String::from_str("<ListTopicsResponse><ListTopicsResult><Topics>");
    let mut i: usize = 0;
    while i < state.topics.len()
        invariant
            i <= state.topics@.len(),
            head@ =~= "<ListTopicsResponse><ListTopicsResult><Topics>"@ + topics_xml(
                state.topics@.take(i as int),
            ),
        decreases state.topics@.len() - i,
    {
        proof {
            let t = state.topics@.take(i + 1);
            assert(t.drop_last() =~= state.topics@.take(i as int));
            assert(t.last() == state.topics@[i as int]);
        }
        head.append("<Topic><TopicArn>");
        let earn = escape_xml(state.topics[i].1.arn.as_str());
        head.append(earn.as_str());
        head.append("</TopicArn></Topic>");
        i += 1;
        assert(head@ =~= "<ListTopicsResponse><ListTopicsResult><Topics>"@ + topics_xml(
            state.topics@.take(i as int),
        ));
    }
    proof {
        assert(state.topics@.take(state.topics@.len() as int) =~= state.topics@);
    }
    head.append("</Topics></ListTopicsResult>");
    Ok(finish_response(head, "</ListTopicsResponse>"))
}

pub open spec fn create_topic_head(arn: Seq<char>) -> Seq<char> {
    "<CreateTopicResponse><CreateTopicResult><TopicArn>"@ + arn
        + "</TopicArn></CreateTopicResult>"@
}

/// Create a topic under its derived ARN; creating a name that already exists
/// leaves the existing topic in place and still reports the ARN.
pub fn create_topic(form: &Dict, state: &mut State) -> (r: MyResult<String>)
    ensures
        ({
            let name = dict_get(form@, "Name"@);
            match r {
                Err(e) => name is None && is_missing_param(e, "Name"@) && *final(state) == *old(state),
                Ok(out) => {
                    let key = topic_arn_of(old(state).region@, old(state).account_id@, name->0);
                    &&& name is Some
                    &&& (has_key(old(state).topics@, key) ==> final(state).topics@ == old(state).topics@)
                    &&& (!has_key(old(state).topics@, key) ==> final(state).topics@.len() == old(state).topics@.len() + 1 && final(state).topics@.drop_last() == old(state).topics@
                        && final(state).topics@.last().0@ == key && final(state).topics@.last().1.name@ == name->0 && final(state).topics@.last().1.arn@ == key
                        && final(state).topics@.last().1.attributes@ == collected_attrs(
                        form@,
                        "Attribute."@,
                        1,
                        Seq::empty(),
                    ) && final(state).topics@.last().1.subscriptions@.len() == 0)
                    &&& meta_response(out@, create_topic_head(key), "</CreateTopicResponse>"@)
                    &&& final(state).queues == old(state).queues
                    &&& final(state).received_messages == old(state).received_messages
                    &&& final(state).account_id == old(state).account_id
                    &&& final(state).region == old(state).region
                    &&& final(state).endpoint_url == old(state).endpoint_url
                },
            }
        }),
{
    let topic_name = match require_param(form, "Name") {
        Ok(v) => v,
        Err(e) => {
            return Err(e);
        },
    };
    let attributes = get_attributes(form);
    let arn = state.get_topic_arn(topic_name.as_str());
    let topic = SNSTopic::new(topic_name.as_str(), &arn, attributes);
    state.add_topic(topic);
    let topic_arn = state.get_topic_arn(topic_name.as_str());
    let mut head = String::from_str("<CreateTopicResponse><CreateTopicResult><TopicArn>");
    head.append(topic_arn.0.as_str());
    head.append("</TopicArn></CreateTopicResult>");
    Ok(finish_response(head, "</CreateTopicResponse>"))
}

/// Delete the topic under the given ARN together with its subscriptions; an
/// unknown ARN is a silent no-op.
pub fn delete_topic(form: &Dict, state: &mut State) -> (r: MyResult<String>)
    ensures
        ({
            let arn = dict_get(form@, "TopicArn"@);
            match r {
                Err(e) => arn is None && is_missing_param(e, "TopicArn"@) && *final(state) == *old(state),
                Ok(out) => {
                    &&& arn is Some
                    &&& final(state).topics@ == remove_key(old(state).topics@, arn->0)
                    &&& meta_response(out@, "<DeleteTopicResponse>"@, "</DeleteTopicResponse>"@)
                    &&& final(state).queues == old(state).queues
                    &&& final(state).received_messages == old(state).received_messages
                    &&& final(state).account_id == old(state).account_id
                    &&& final(state).region == old(state).region
                    &&& final(state).endpoint_url == old(state).endpoint_url
                },
            }
        }),
{
    let topic_arn = match require_param(form, "TopicArn") {
        Ok(v) => v,
        Err(e) => {
            return Err(e);
        },
    };
    state.remove_topic(&TopicArn(topic_arn.clone()));
    Ok(finish_response(
        String::from_str("<DeleteTopicResponse>"),
        "</DeleteTopicResponse>",
    ))
}

pub open spec fn get_topic_attributes_head(attrs: Seq<(Seq<char>, Seq<char>)>) -> Seq<char> {
    "<GetTopicAttributesResponse><GetTopicAttributesResult>"@ + escaped_attrs_xml(attrs)
        + "</GetTopicAttributesResult>"@
}

/// Report the attribute bag of the topic under the given ARN.
pub fn get_topic_attributes(form: &Dict, state: &State) -> (r: MyResult<String>)
    ensures
        ({
            let arn = dict_get(form@, "TopicArn"@);
            match r {
                Err(e) => (arn is None && is_missing_param(e, "TopicArn"@)) || (arn is Some
                    && !has_key(state.topics@, arn->0) && is_topic_not_found(e, arn->0)),
                Ok(out) => {
                    &&& arn is Some
                    &&& has_key(state.topics@, arn->0)
                    &&& meta_response(
                        out@,
                        get_topic_attributes_head(val_of(state.topics@, arn->0).attributes@),
                        "</GetTopicAttributesResponse>"@,
                    )
                },
            }
        }),
{
    let topic_arn = match require_param(form, "TopicArn") {
        Ok(v) => v,
        Err(e) => {
            return Err(e);
        },
    };
    let arn = TopicArn(topic_arn.clone());
    match state.find_topic(&arn) {
        None => Err(MyError::TopicNotFound(topic_arn.clone())),
        Some(i) => {
            proof {
                crate::state::lemma_key_index(state.topics@, arn@);
            }
            let t = &state.topics[i].1;
            let mut head = String::from_str(
                "<GetTopicAttributesResponse><GetTopicAttributesResult>",
            );
            let mut j: usize = 0;
            while j < t.attributes.entries.len()
                invariant
                    j <= t.attributes@.len(),
                    *t == state.topics@[key_index(state.topics@, arn@)].1,
                    head@ =~= "<GetTopicAttributesResponse><GetTopicAttributesResult>"@
                        + escaped_attrs_xml(t.attributes@.take(j as int)),
                decreases t.attributes@.len() - j,
            {
                proof {
                    let tt = t.attributes@.take(j + 1);
                    assert(tt.drop_last() =~= t.attributes@.take(j as int));
                    assert(tt.last() == t.attributes@[j as int]);
                }
                head.append("<Attribute><Name>");
                let ek = escape_xml(t.attributes.entries[j].0.as_str());
                head.append(ek.as_str());
                head.append("</Name><Value>");
                let ev = escape_xml(t.attributes.entries[j].1.as_str());
                head.append(ev.as_str());
                head.append("</Value></Attribute>");
                j += 1;
                assert(head@ =~= "<GetTopicAttributesResponse><GetTopicAttributesResult>"@
                    + escaped_attrs_xml(t.attributes@.take(j as int)));
            }
            proof {
                assert(t.attributes@.take(t.attributes@.len() as int) =~= t.attributes@);
            }
            head.append("</GetTopicAttributesResult>");
            Ok(finish_response(head, "</GetTopicAttributesResponse>"))
        },
    }
}

/// Replace the whole attribute bag of the topic under the given ARN.
pub fn set_topic_attributes(form: &Dict, state: &mut State) -> (r: MyResult<String>)
    ensures
        ({
            let arn = dict_get(form@, "TopicArn"@);
            match r {
                Err(e) => *final(state) == *old(state) && ((arn is None && is_missing_param(
                    e,
                    "TopicArn"@,
                )) || (arn is Some && !has_key(old(state).topics@, arn->0) && is_topic_not_found(
                    e,
                    arn->0,
                ))),
                Ok(out) => {
                    let i = key_index(old(state).topics@, arn->0);
                    &&& arn is Some
                    &&& has_key(old(state).topics@, arn->0)
                    &&& final(state).topics@.len() == old(state).topics@.len()
                    &&& forall|j: int|
                        0 <= j < old(state).topics@.len() && j != i ==> final(state).topics@[j]
                            == old(state).topics@[j]
                    &&& final(state).topics@[i].0 == old(state).topics@[i].0
                    &&& final(state).topics@[i].1.name == old(state).topics@[i].1.name
                    &&& final(state).topics@[i].1.arn == old(state).topics@[i].1.arn
                    &&& final(state).topics@[i].1.subscriptions == old(state).topics@[i].1.subscriptions
                    &&& final(state).topics@[i].1.attributes@ == collected_attrs(
                        form@,
                        "Attribute."@,
                        1,
                        Seq::empty(),
                    )
                    &&& meta_response(
                        out@,
                        "<SetTopicAttributesResponse>"@,
                        "</SetTopicAttributesResponse>"@,
                    )
                    &&& final(state).queues == old(state).queues
                    &&& final(state).received_messages == old(state).received_messages
                    &&& final(state).account_id == old(state).account_id
                    &&& final(state).region == old(state).region
                    &&& final(state).endpoint_url == old(state).endpoint_url
                },
            }
        }),
{
    let topic_arn = match require_param(form, "TopicArn") {
        Ok(v) => v,
        Err(e) => {
            return Err(e);
        },
    };
    let attributes = get_attributes(form);
    let arn = TopicArn(topic_arn.clone());
    match state.find_topic(&arn) {
        None => Err(MyError::TopicNotFound(topic_arn.clone())),
        Some(i) => {
            let entry = state.topics.remove(i);
            let (key, mut topic) = entry;
            topic.attributes = attributes;
            state.topics.insert(i, (key, topic));
            proof {
                assert(state.topics@ =~= old(state).topics@.update(
                    i as int,
                    state.topics@[i as int],
                ));
            }
            Ok(finish_response(
                String::from_str("<SetTopicAttributesResponse>"),
                "</SetTopicAttributesResponse>",
            ))
        },
    }
}


pub open spec fn subscribe_head(subscription_arn: Seq<char>) -> Seq<char> {
    "<SubscribeResponse><SubscribeResult><SubscriptionArn>"@ + subscription_arn
        + "</SubscriptionArn></SubscribeResult>"@
}

/// Bind a queue endpoint to a topic. Subscribing an endpoint that the topic
/// already carries is a no-op, yet the response still reports the ARN of the
/// subscription minted for this call.
pub fn subscribe(form: &Dict, state: &mut State) -> (r: MyResult<String>)
    ensures
        ({
            let arn = dict_get(form@, "TopicArn"@);
            let endpoint = dict_get(form@, "Endpoint"@);
            let protocol = dict_get(form@, "Protocol"@);
            match r {
                Err(e) => *final(state) == *old(state) && ((arn is None && is_missing_param(
                    e,
                    "TopicArn"@,
                )) || (arn is Some && endpoint is None && is_missing_param(e, "Endpoint"@)) || (
                arn is Some && endpoint is Some && protocol is None && is_missing_param(
                    e,
                    "Protocol"@,
                )) || (arn is Some && endpoint is Some && protocol is Some && !has_key(
                    old(state).topics@,
                    arn->0,
                ) && is_topic_not_found(e, arn->0))),
                Ok(out) => {
                    let i = key_index(old(state).topics@, arn->0);
                    let old_subs = old(state).topics@[i].1.subscriptions@;
                    &&& arn is Some
                    &&& endpoint is Some
                    &&& protocol is Some
                    &&& has_key(old(state).topics@, arn->0)
                    &&& exists|sub: SNSSubscription|
                        {
                            &&& sub.id@.len() == 36
                            &&& sub.arn@ == arn->0 + ":"@ + sub.id@
                            &&& sub.owner@ == old(state).account_id@
                            &&& sub.protocol@ == "sqs"@
                            &&& sub.endpoint@ == endpoint->0
                            &&& sub.topic_arn@ == arn->0
                            &&& final(state).topics@[i].1.subscriptions@ == if has_sub_pair(
                                old_subs,
                                arn->0,
                                endpoint->0,
                            ) {
                                old_subs
                            } else {
                                old_subs.push(sub)
                            }
                            &&& meta_response(
                                out@,
                                subscribe_head(sub.arn@),
                                "</SubscribeResponse>"@,
                            )
                        }
                    &&& final(state).topics@.len() == old(state).topics@.len()
                    &&& forall|j: int|
                        0 <= j < old(state).topics@.len() && j != i ==> final(state).topics@[j]
                            == old(state).topics@[j]
                    &&& final(state).topics@[i].0 == old(state).topics@[i].0
                    &&& final(state).topics@[i].1.name == old(state).topics@[i].1.name
                    &&& final(state).topics@[i].1.arn == old(state).topics@[i].1.arn
                    &&& final(state).topics@[i].1.attributes == old(state).topics@[i].1.attributes
                    &&& final(state).queues == old(state).queues
                    &&& final(state).received_messages == old(state).received_messages
                    &&& final(state).account_id == old(state).account_id
                    &&& final(state).region == old(state).region
                    &&& final(state).endpoint_url == old(state).endpoint_url
                },
            }
        }),
{
    let topic_arn = match require_param(form, "TopicArn") {
        Ok(v) => v,
        Err(e) => {
            return Err(e);
        },
    };
    let endpoint = match require_param(form, "Endpoint") {
        Ok(v) => v,
        Err(e) => {
            return Err(e);
        },
    };
    let _protocol = match require_param(form, "Protocol") {
        Ok(v) => v,
        Err(e) => {
            return Err(e);
        },
    };
    let account_id = state.account_id.clone();
    let arn = TopicArn(topic_arn.clone());
    match state.find_topic(&arn) {
        None => Err(MyError::TopicNotFound(topic_arn.clone())),
        Some(i) => {
            let subscription = SNSSubscription::new_sqs(&arn, endpoint.as_str(), account_id.as_str());
            let ghost sub_snapshot = subscription;
            let subscription_arn = subscription.arn.clone();
            let entry = state.topics.remove(i);
            let (key, mut topic) = entry;
            topic.add_subscription(subscription);
            state.topics.insert(i, (key, topic));
            proof {
                assert(state.topics@ =~= old(state).topics@.update(
                    i as int,
                    state.topics@[i as int],
                ));
            }
            let mut head = String::from_str(
                "<SubscribeResponse><SubscribeResult><SubscriptionArn>",
            );
            head.append(subscription_arn.as_str());
            head.append("</SubscriptionArn></SubscribeResult>");
            let out = finish_response(head, "</SubscribeResponse>");
            proof {
                assert(meta_response(out@, subscribe_head(sub_snapshot.arn@), "</SubscribeResponse>"@));
            }
            Ok(out)
        },
    }
}

/// Remove the subscription with the given ARN from every topic; an unknown
/// ARN is a silent no-op.
pub fn unsubscribe(form: &Dict, state: &mut State) -> (r: MyResult<String>)
    ensures
        ({
            let arn = dict_get(form@, "SubscriptionArn"@);
            match r {
                Err(e) => arn is None && is_missing_param(e, "SubscriptionArn"@) && *final(state)
                    == *old(state),
                Ok(out) => {
                    &&& arn is Some
                    &&& final(state).topics@.len() == old(state).topics@.len()
                    &&& forall|j: int|
                        0 <= j < old(state).topics@.len() ==> {
                            &&& (#[trigger] final(state).topics@[j]).0 == old(state).topics@[j].0
                            &&& final(state).topics@[j].1.name == old(state).topics@[j].1.name
                            &&& final(state).topics@[j].1.arn == old(state).topics@[j].1.arn
                            &&& final(state).topics@[j].1.attributes == old(
                                state,
                            ).topics@[j].1.attributes
                            &&& final(state).topics@[j].1.subscriptions@ == crate::state::without_arn(
                                old(state).topics@[j].1.subscriptions@,
                                arn->0,
                            )
                        }
                    &&& meta_response(out@, "<UnsubscribeResponse>"@, "</UnsubscribeResponse>"@)
                    &&& final(state).queues == old(state).queues
                    &&& final(state).received_messages == old(state).received_messages
                    &&& final(state).account_id == old(state).account_id
                    &&& final(state).region == old(state).region
                    &&& final(state).endpoint_url == old(state).endpoint_url
                },
            }
        }),
{
    let subscription_arn = match require_param(form, "SubscriptionArn") {
        Ok(v) => v,
        Err(e) => {
            return Err(e);
        },
    };
    let mut i: usize = 0;
    while i < state.topics.len()
        invariant
            i <= state.topics@.len(),
            state.topics@.len() == old(state).topics@.len(),
            dict_get(form@, "SubscriptionArn"@) == Some(subscription_arn@),
            forall|j: int|
                0 <= j < i ==> {
                    &&& (#[trigger] state.topics@[j]).0 == old(state).topics@[j].0
                    &&& state.topics@[j].1.name == old(state).topics@[j].1.name
                    &&& state.topics@[j].1.arn == old(state).topics@[j].1.arn
                    &&& state.topics@[j].1.attributes == old(state).topics@[j].1.attributes
                    &&& state.topics@[j].1.subscriptions@ == crate::state::without_arn(
                        old(state).topics@[j].1.subscriptions@,
                        subscription_arn@,
                    )
                },
            forall|j: int|
                i <= j < state.topics@.len() ==> #[trigger] state.topics@[j] == old(
                    state,
                ).topics@[j],
            state.queues == old(state).queues,
            state.received_messages == old(state).received_messages,
            state.account_id == old(state).account_id,
            state.region == old(state).region,
            state.endpoint_url == old(state).endpoint_url,
        decreases state.topics@.len() - i,
    {
        let ghost ts_before = state.topics@;
        let entry = state.topics.remove(i);
        let (key, mut topic) = entry;
        topic.remove_subscription(subscription_arn.as_str());
        state.topics.insert(i, (key, topic));
        proof {
            assert(state.topics@ =~= ts_before.update(i as int, state.topics@[i as int]));
        }
        i += 1;
    }
    Ok(finish_response(
        String::from_str("<UnsubscribeResponse>"),
        "</UnsubscribeResponse>",
    ))
}

/// The `<member>` elements of a topic's subscriptions, in insertion order.
pub open spec fn subs_xml(subs: Seq<SNSSubscription>) -> Seq<char>
    decreases subs.len(),
{
    if subs.len() == 0 {
        Seq::empty()
    } else {
        subs_xml(subs.drop_last()) + subscription_xml_of(subs.last())
    }
}

/// The subscriptions of every topic, topics in registry order.
pub open spec fn all_subs_xml(ts: Seq<(TopicArn, SNSTopic)>) -> Seq<char>
    decreases ts.len(),
{
    if ts.len() == 0 {
        Seq::empty()
    } else {
        all_subs_xml(ts.drop_last()) + subs_xml(ts.last().1.subscriptions@)
    }
}

pub open spec fn list_subscriptions_head(ts: Seq<(TopicArn, SNSTopic)>) -> Seq<char> {
    "<ListSubscriptionsResponse><ListSubscriptionsResult><Subscriptions>"@ + all_subs_xml(ts)
        + "</Subscriptions></ListSubscriptionsResult>"@
}

/// List every subscription of every topic.
pub fn list_subscriptions(_form: &Dict, state: &State) -> (r: MyResult<String>)
    ensures
        r is Ok,
        meta_response(
            r->Ok_0@,
            list_subscriptions_head(state.topics@),
            "</ListSubscriptionsResponse>"@,
        ),
{
    let mut head = String::from_str(
        "<ListSubscriptionsResponse><ListSubscriptionsResult><Subscriptions>",
    );
    let ghost lit = "<ListSubscriptionsResponse><ListSubscriptionsResult><Subscriptions>"@;
    let mut i: usize = 0;
    while i < state.topics.len()
        invariant
            i <= state.topics@.len(),
            lit == "<ListSubscriptionsResponse><ListSubscriptionsResult><Subscriptions>"@,
            head@ =~= lit + all_subs_xml(state.topics@.take(i as int)),
        decreases state.topics@.len() - i,
    {
        proof {
            let t = state.topics@.take(i + 1);
            assert(t.drop_last() =~= state.topics@.take(i as int));
            assert(t.last() == state.topics@[i as int]);
        }
        let ghost before = head@;
        let subs = &state.topics[i].1.subscriptions;
        let mut j: usize = 0;
        while j < subs.len()
            invariant
                j <= subs@.len(),
                *subs == state.topics@[i as int].1.subscriptions,
                i < state.topics@.len(),
                head@ =~= before + subs_xml(subs@.take(j as int)),
            decreases subs@.len() - j,
        {
            proof {
                let t = subs@.take(j + 1);
                assert(t.drop_last() =~= subs@.take(j as int));
                assert(t.last() == subs@[j as int]);
            }
            let piece = subs[j].get_subscription_xml();
            head.append(piece.as_str());
            j += 1;
            assert(head@ =~= before + subs_xml(subs@.take(j as int)));
        }
        proof {
            assert(subs@.take(subs@.len() as int) =~= subs@);
        }
        i += 1;
        assert(head@ =~= lit + all_subs_xml(state.topics@.take(i as int)));
    }
    proof {
        assert(state.topics@.take(state.topics@.len() as int) =~= state.topics@);
    }
    head.append("</Subscriptions></ListSubscriptionsResult>");
    Ok(finish_response(head, "</ListSubscriptionsResponse>"))
}

pub open spec fn list_subscriptions_by_topic_head(subs: Seq<SNSSubscription>) -> Seq<char> {
    "<ListSubscriptionsByTopicResponse><ListSubscriptionsByTopicResult><Subscriptions>"@
        + subs_xml(subs) + "</Subscriptions></ListSubscriptionsByTopicResult>"@
}

/// List the subscriptions of the topic under the given ARN.
pub fn list_subscriptions_by_topic(form: &Dict, state: &State) -> (r: MyResult<String>)
    ensures
        ({
            let arn = dict_get(form@, "TopicArn"@);
            match r {
                Err(e) => (arn is None && is_missing_param(e, "TopicArn"@)) || (arn is Some
                    && !has_key(state.topics@, arn->0) && is_topic_not_found(e, arn->0)),
                Ok(out) => {
                    &&& arn is Some
                    &&& has_key(state.topics@, arn->0)
                    &&& meta_response(
                        out@,
                        list_subscriptions_by_topic_head(
                            val_of(state.topics@, arn->0).subscriptions@,
                        ),
                        "</ListSubscriptionsByTopicResponse>"@,
                    )
                },
            }
        }),
{
    let topic_arn = match require_param(form, "TopicArn") {
        Ok(v) => v,
        Err(e) => {
            return Err(e);
        },
    };
    let arn = TopicArn(topic_arn.clone());
    match state.find_topic(&arn) {
        None => Err(MyError::TopicNotFound(topic_arn.clone())),
        Some(i) => {
            proof {
                crate::state::lemma_key_index(state.topics@, arn@);
            }
            let subs = &state.topics[i].1.subscriptions;
            let mut head = String::from_str(
                "<ListSubscriptionsByTopicResponse><ListSubscriptionsByTopicResult><Subscriptions>",
            );
            let ghost lit =
                "<ListSubscriptionsByTopicResponse><ListSubscriptionsByTopicResult><Subscriptions>"@;
            let mut j: usize = 0;
            while j < subs.len()
                invariant
                    j <= subs@.len(),
                    *subs == state.topics@[key_index(state.topics@, arn@)].1.subscriptions,
                    lit
                        == "<ListSubscriptionsByTopicResponse><ListSubscriptionsByTopicResult><Subscriptions>"@,
                    head@ =~= lit + subs_xml(subs@.take(j as int)),
                decreases subs@.len() - j,
            {
                proof {
                    let t = subs@.take(j + 1);
                    assert(t.drop_last() =~= subs@.take(j as int));
                    assert(t.last() == subs@[j as int]);
                }
                let piece = subs[j].get_subscription_xml();
                head.append(piece.as_str());
                j += 1;
                assert(head@ =~= lit + subs_xml(subs@.take(j as int)));
            }
            proof {
                assert(subs@.take(subs@.len() as int) =~= subs@);
            }
            head.append("</Subscriptions></ListSubscriptionsByTopicResult>");
            Ok(finish_response(head, "</ListSubscriptionsByTopicResponse>"))
        },
    }
}


/// How many fan-out copies a queue under `key` receives: one per subscription
/// whose endpoint resolves to `key`.
pub open spec fn fanout_count(subs: Seq<SNSSubscription>, key: Seq<char>) -> int
    decreases subs.len(),
{
    if subs.len() == 0 {
        0
    } else {
        fanout_count(subs.drop_last(), key) + if queue_path_of(subs.last().endpoint@) == key {
            1int
        } else {
            0int
        }
    }
}

pub proof fn lemma_fanout_count_bounds(subs: Seq<SNSSubscription>, key: Seq<char>)
    ensures
        0 <= fanout_count(subs, key) <= subs.len(),
    decreases subs.len(),
{
    if subs.len() > 0 {
        lemma_fanout_count_bounds(subs.drop_last(), key);
    }
}

/// Queue `j` after a publish fanned out over `subs`: identity and attributes
/// kept; the first queue under its key holds its old messages followed by one
/// copy of the published message (view `mv`) per matching subscription, and
/// its bell is cleared when it received at least one copy.
pub open spec fn published_at(
    cur: Seq<(QueuePath, SQSQueue)>,
    qs: Seq<(QueuePath, SQSQueue)>,
    subs: Seq<SNSSubscription>,
    mv: MessageView,
    j: int,
) -> bool {
    &&& cur[j].0 == qs[j].0
    &&& cur[j].1.name == qs[j].1.name
    &&& cur[j].1.attributes == qs[j].1.attributes
    &&& if j == key_index(qs, qs[j].0@) {
        let n = fanout_count(subs, qs[j].0@);
        &&& cur[j].1.messages@.len() == qs[j].1.messages@.len() + n
        &&& cur[j].1.messages@.take(qs[j].1.messages@.len() as int) == qs[j].1.messages@
        &&& (forall|k: int|
            qs[j].1.messages@.len() <= k < cur[j].1.messages@.len() ==> (
            #[trigger] cur[j].1.messages@[k])@ == mv)
        &&& (n > 0 ==> cur[j].1.bell is None)
        &&& (n == 0 ==> cur[j].1.bell == qs[j].1.bell)
    } else {
        cur[j].1.messages == qs[j].1.messages && cur[j].1.bell == qs[j].1.bell
    }
}

/// Every queue stands as `published_at` describes.
pub open spec fn published(
    cur: Seq<(QueuePath, SQSQueue)>,
    qs: Seq<(QueuePath, SQSQueue)>,
    subs: Seq<SNSSubscription>,
    mv: MessageView,
) -> bool {
    &&& cur.len() == qs.len()
    &&& forall|j: int| 0 <= j < qs.len() ==> #[trigger] published_at(cur, qs, subs, mv, j)
}

/// The identifier a publish call is addressed to: an explicit target ARN
/// when given, the topic ARN otherwise.
pub open spec fn publish_target(form: Seq<(Seq<char>, Seq<char>)>) -> Option<Seq<char>> {
    if dict_get(form, "TargetArn"@) is Some {
        dict_get(form, "TargetArn"@)
    } else {
        dict_get(form, "TopicArn"@)
    }
}

/// Everything one publish call leaves behind, up to the randomly drawn
/// message id and receipt handle inside `mv`: the published message's view,
/// the fan-out across the queues, and the response document.
pub open spec fn publish_effect(
    out: Seq<char>,
    body: Seq<char>,
    mattrs: Seq<(Seq<char>, Seq<char>)>,
    cur: Seq<(QueuePath, SQSQueue)>,
    qs: Seq<(QueuePath, SQSQueue)>,
    subs: Seq<SNSSubscription>,
    mv: MessageView,
) -> bool {
    &&& mv.id.len() == 36
    &&& mv.content == body
    &&& mv.attributes == mattrs
    &&& mv.receive_count == 0
    &&& mv.receipt_handle.len() == 36
    &&& published(cur, qs, subs, mv)
    &&& meta_response(out, publish_head(mv.id), "</PublishResponse>"@)
}

pub open spec fn publish_head(message_id: Seq<char>) -> Seq<char> {
    "<PublishResponse><PublishResult><MessageId>"@ + message_id
        + "</MessageId></PublishResult>"@
}

/// A failed publish: the state untouched and the error that the form earns.
pub open spec fn publish_err(
    form: Seq<(Seq<char>, Seq<char>)>,
    topics: Seq<(TopicArn, SNSTopic)>,
    e: MyError,
) -> bool {
    let target = publish_target(form);
    let body = dict_get(form, "Message"@);
    ||| (target is None && is_missing_param(e, "TopicArn"@))
    ||| (target is Some && body is None && is_missing_param(e, "Message"@))
    ||| (target is Some && body is Some && !has_key(topics, target->0) && is_topic_not_found(
        e,
        target->0,
    ))
}

/// A successful publish: the target and body were given, the topic exists,
/// the fan-out happened, and everything else is untouched.
pub open spec fn publish_ok(
    form: Seq<(Seq<char>, Seq<char>)>,
    pre: State,
    post: State,
    out: Seq<char>,
) -> bool {
    let target = publish_target(form);
    let body = dict_get(form, "Message"@);
    &&& target is Some
    &&& body is Some
    &&& has_key(pre.topics@, target->0)
    &&& exists|mv: MessageView|
        #[trigger] publish_effect(
            out,
            body->0,
            collected_attrs(form, "MessageAttribute."@, 1, Seq::empty()),
            post.queues@,
            pre.queues@,
            val_of(pre.topics@, target->0).subscriptions@,
            mv,
        )
    &&& post.topics == pre.topics
    &&& post.received_messages == pre.received_messages
    &&& post.account_id == pre.account_id
    &&& post.region == pre.region
    &&& post.endpoint_url == pre.endpoint_url
}

/// Publish one message to a topic: a fresh message is fanned out to every
/// subscribed queue that still exists; a subscription whose queue is gone is
/// skipped silently, and the publisher still gets the message id.
pub fn publish(form: &Dict, state: &mut State) -> (r: MyResult<String>)
    ensures
        match r {
            Ok(out) => publish_ok(form@, *old(state), *final(state), out@),
            Err(e) => *final(state) == *old(state) && publish_err(
                form@,
                old(state).topics@,
                e,
            ),
        },
{
    let target_arn = match form.get("TargetArn") {
        Some(x) => x,
        None => match form.get("TopicArn") {
            Some(x) => x,
            None => {
                return Err(MyError::MissingParameter(String::from_str("TopicArn")));
            },
        },
    };
    let message_body = match require_param(form, "Message") {
        Ok(v) => v,
        Err(e) => {
            return Err(e);
        },
    };
    let attributes = get_message_attributes(form);
    let arn = TopicArn(target_arn.clone());
    let queue_urls = match state.find_topic(&arn) {
        Some(i) => {
            proof {
                crate::state::lemma_key_index(state.topics@, arn@);
            }
            state.topics[i].1.get_queue_urls()
        },
        None => {
            return Err(MyError::TopicNotFound(target_arn.clone()));
        },
    };
    let ghost subs = val_of(old(state).topics@, arn@).subscriptions@;
    let message = Message::new(message_body.as_str(), attributes);
    let message_id = message.id.clone();
    let ghost mv = message@;
    let ghost qs = old(state).queues@;
    proof {
        assert forall|j: int| 0 <= j < qs.len() implies #[trigger] published_at(
            state.queues@,
            qs,
            subs.take(0),
            mv,
            j,
        ) by {
            assert(fanout_count(subs.take(0), qs[j].0@) == 0);
            assert(qs[j].1.messages@.take(qs[j].1.messages@.len() as int) =~= qs[j].1.messages@);
        }
    }
    let mut i: usize = 0;
    while i < queue_urls.len()
        invariant
            i <= queue_urls@.len(),
            queue_urls@.len() == subs.len(),
            forall|k: int| 0 <= k < subs.len() ==> queue_urls@[k]@ == subs[k].endpoint@,
            qs == old(state).queues@,
            message@ == mv,
            state.queues@.len() == qs.len(),
            forall|j: int|
                0 <= j < qs.len() ==> #[trigger] published_at(
                    state.queues@,
                    qs,
                    subs.take(i as int),
                    mv,
                    j,
                ),
            state.topics == old(state).topics,
            state.received_messages == old(state).received_messages,
            state.account_id == old(state).account_id,
            state.region == old(state).region,
            state.endpoint_url == old(state).endpoint_url,
        decreases queue_urls@.len() - i,
    {
        proof {
            let t = subs.take(i + 1);
            assert(t.drop_last() =~= subs.take(i as int));
            assert(t.last() == subs[i as int]);
        }
        let path = state.get_queue_path(queue_urls[i].as_str());
        let ghost qs_before = state.queues@;
        let ghost done0 = i as int;
        match state.find_queue(&path) {
            Some(qi) => {
                proof {
                    crate::state::lemma_key_index(qs_before, path@);
                    assert forall|j: int|
                        0 <= j < qs_before.len() implies qs_before[j].0@ == qs[j].0@ by {
                        assert(published_at(qs_before, qs, subs.take(done0), mv, j));
                    }
                    crate::state::lemma_key_index_same_keys(qs_before, qs, path@);
                    crate::state::lemma_key_index(qs, path@);
                }
                let copy = message.clone();
                let ghost copy_snap = copy;
                let entry = state.queues.remove(qi);
                let (key, mut q) = entry;
                q.send_message(copy);
                state.queues.insert(qi, (key, q));
                proof {
                    assert(state.queues@ =~= qs_before.update(
                        qi as int,
                        (qs_before[qi as int].0, state.queues@[qi as int].1),
                    ));
                    assert(state.queues@[qi as int].1.messages@ == qs_before[
                        qi as int
                    ].1.messages@.push(copy_snap));
                    assert(copy_snap@ == mv);
                    assert forall|j: int| 0 <= j < qs.len() implies #[trigger] published_at(
                        state.queues@,
                        qs,
                        subs.take(done0 + 1),
                        mv,
                        j,
                    ) by {
                        assert(published_at(qs_before, qs, subs.take(done0), mv, j));
                        lemma_fanout_count_bounds(subs.take(done0), qs[j].0@);
                        lemma_fanout_count_bounds(subs.take(done0 + 1), qs[j].0@);
                        if j == qi as int {
                            assert(qs[j].0@ == path@);
                            assert(j == key_index(qs, qs[j].0@));
                            assert(fanout_count(subs.take(done0 + 1), qs[j].0@) == fanout_count(
                                subs.take(done0),
                                qs[j].0@,
                            ) + 1);
                            assert(state.queues@[j].1.messages@ == qs_before[j].1.messages@.push(
                                copy_snap,
                            ));
                            assert(state.queues@[j].1.messages@.take(
                                qs[j].1.messages@.len() as int,
                            ) =~= qs_before[j].1.messages@.take(qs[j].1.messages@.len() as int));
                            assert(state.queues@[j].1.messages@.last()@ == mv);
                            assert forall|k: int|
                                qs[j].1.messages@.len() <= k < state.queues@[j].1.messages@.len()
                                    implies (#[trigger] state.queues@[j].1.messages@[k])@
                                    == mv by {
                                if k < qs_before[j].1.messages@.len() {
                                    assert(state.queues@[j].1.messages@[k] == qs_before[
                                        j
                                    ].1.messages@[k]);
                                } else {
                                    assert(state.queues@[j].1.messages@[k] == copy_snap);
                                }
                            }
                        } else {
                            if qs[j].0@ == path@ {
                                assert(key_index(qs, qs[j].0@) == qi as int);
                                assert(j != key_index(qs, qs[j].0@));
                            } else {
                                assert(fanout_count(subs.take(done0 + 1), qs[j].0@)
                                    == fanout_count(subs.take(done0), qs[j].0@));
                            }
                        }
                    }
                }
            },
            None => {
                proof {
                    crate::state::lemma_key_index(qs_before, path@);
                    assert forall|j: int|
                        0 <= j < qs_before.len() implies qs_before[j].0@ == qs[j].0@ by {
                        assert(published_at(qs_before, qs, subs.take(done0), mv, j));
                    }
                    assert forall|j: int| 0 <= j < qs.len() implies #[trigger] published_at(
                        state.queues@,
                        qs,
                        subs.take(done0 + 1),
                        mv,
                        j,
                    ) by {
                        assert(published_at(qs_before, qs, subs.take(done0), mv, j));
                        assert(qs[j].0@ != path@);
                        assert(fanout_count(subs.take(done0 + 1), qs[j].0@) == fanout_count(
                            subs.take(done0),
                            qs[j].0@,
                        ));
                    }
                }
            },
        }
        i += 1;
    }
    proof {
        assert(subs.take(subs.len() as int) =~= subs);
    }
    let mut head = String::from_str("<PublishResponse><PublishResult><MessageId>");
    head.append(message_id.as_str());
    head.append("</MessageId></PublishResult>");
    let out = finish_response(head, "</PublishResponse>");
    proof {
        assert(publish_target(form@) is Some);
        assert(arn@ == publish_target(form@)->0);
        assert(publish_effect(
            out@,
            dict_get(form@, "Message"@)->0,
            collected_attrs(form@, "MessageAttribute."@, 1, Seq::empty()),
            state.queues@,
            old(state).queues@,
            val_of(old(state).topics@, publish_target(form@)->0).subscriptions@,
            mv,
        ));
        assert(publish_ok(form@, *old(state), *state, out@));
    }
    Ok(out)
}

} // verus!
