use vstd::prelude::*;

use crate::dict::{dict_get, Dict};
use crate::errors::{is_unknown_action, MyError};

verus! {

/// The operations the service offers, one per accepted `Action` form value.
#[derive(Debug, Clone, Copy)]
pub enum Action {
    ListQueues,
    CreateQueue,
    DeleteQueue,
    GetQueueAttributes,
    SetQueueAttributes,
    SendMessage,
    ReceiveMessage,
    DeleteMessage,
    ChangeMessageVisibility,
    ListTopics,
    CreateTopic,
    DeleteTopic,
    GetTopicAttributes,
    SetTopicAttributes,
    Publish,
    Subscribe,
    Unsubscribe,
    ListSubscriptions,
    ListSubscriptionsByTopic,
}

/// Which operation an `Action` value names, if any.
pub open spec fn action_of(name: Seq<char>) -> Option<Action> {
    if name == "ListQueues"@ {
        Some(Action::ListQueues)
    } else if name == "CreateQueue"@ {
        Some(Action::CreateQueue)
    } else if name == "DeleteQueue"@ {
        Some(Action::DeleteQueue)
    } else if name == "GetQueueAttributes"@ {
        Some(Action::GetQueueAttributes)
    } else if name == "SetQueueAttributes"@ {
        Some(Action::SetQueueAttributes)
    } else if name == "SendMessage"@ {
        Some(Action::SendMessage)
    } else if name == "ReceiveMessage"@ {
        Some(Action::ReceiveMessage)
    } else if name == "DeleteMessage"@ {
        Some(Action::DeleteMessage)
    } else if name == "ChangeMessageVisibility"@ {
        Some(Action::ChangeMessageVisibility)
    } else if name == "ListTopics"@ {
        Some(Action::ListTopics)
    } else if name == "CreateTopic"@ {
        Some(Action::CreateTopic)
    } else if name == "DeleteTopic"@ {
        Some(Action::DeleteTopic)
    } else if name == "GetTopicAttributes"@ {
        Some(Action::GetTopicAttributes)
    } else if name == "SetTopicAttributes"@ {
        Some(Action::SetTopicAttributes)
    } else if name == "Publish"@ {
        Some(Action::Publish)
    } else if name == "Subscribe"@ {
        Some(Action::Subscribe)
    } else if name == "Unsubscribe"@ {
        Some(Action::Unsubscribe)
    } else if name == "ListSubscriptions"@ {
        Some(Action::ListSubscriptions)
    } else if name == "ListSubscriptionsByTopic"@ {
        Some(Action::ListSubscriptionsByTopic)
    } else {
        None
    }
}

/// Decide which operation a request asks for: the absent `Action` parameter
/// and an unknown action name are the two request-level failures.
pub fn parse_action(form: &Dict) -> (r: Result<Action, MyError>)
    ensures
        ({
            let name = dict_get(form@, "Action"@);
            match r {
                Ok(a) => name is Some && action_of(name->0) == Some(a),
                Err(e) => (name is None && e is MissingAction) || (name is Some && action_of(
                    name->0,
                ) is None && is_unknown_action(e, name->0)),
            }
        }),
{
    let name = match form.get("Action") {
        Some(v) => v,
        None => {
            return Err(MyError::MissingAction);
        },
    };
    let s = name.as_str();
    if crate::text::str_eq(s, "ListQueues") {
        Ok(Action::ListQueues)
    } else if crate::text::str_eq(s, "CreateQueue") {
        Ok(Action::CreateQueue)
    } else if crate::text::str_eq(s, "DeleteQueue") {
        Ok(Action::DeleteQueue)
    } else if crate::text::str_eq(s, "GetQueueAttributes") {
        Ok(Action::GetQueueAttributes)
    } else if crate::text::str_eq(s, "SetQueueAttributes") {
        Ok(Action::SetQueueAttributes)
    } else if crate::text::str_eq(s, "SendMessage") {
        Ok(Action::SendMessage)
    } else if crate::text::str_eq(s, "ReceiveMessage") {
        Ok(Action::ReceiveMessage)
    } else if crate::text::str_eq(s, "DeleteMessage") {
        Ok(Action::DeleteMessage)
    } else if crate::text::str_eq(s, "ChangeMessageVisibility") {
        Ok(Action::ChangeMessageVisibility)
    } else if crate::text::str_eq(s, "ListTopics") {
        Ok(Action::ListTopics)
    } else if crate::text::str_eq(s, "CreateTopic") {
        Ok(Action::CreateTopic)
    } else if crate::text::str_eq(s, "DeleteTopic") {
        Ok(Action::DeleteTopic)
    } else if crate::text::str_eq(s, "GetTopicAttributes") {
        Ok(Action::GetTopicAttributes)
    } else if crate::text::str_eq(s, "SetTopicAttributes") {
        Ok(Action::SetTopicAttributes)
    } else if crate::text::str_eq(s, "Publish") {
        Ok(Action::Publish)
    } else if crate::text::str_eq(s, "Subscribe") {
        Ok(Action::Subscribe)
    } else if crate::text::str_eq(s, "Unsubscribe") {
        Ok(Action::Unsubscribe)
    } else if crate::text::str_eq(s, "ListSubscriptions") {
        Ok(Action::ListSubscriptions)
    } else if crate::text::str_eq(s, "ListSubscriptionsByTopic") {
        Ok(Action::ListSubscriptionsByTopic)
    } else {
        Err(MyError::UnknownAction(name.clone()))
    }
}

} // verus!
