//! Runtime actions fired by key transitions, and remote control commands.

use vstd::prelude::*;

use crate::config::OnPressAction;
use crate::config::OnReleaseAction;
use crate::keypad::KeyState;

verus! {

/// A runtime action attached to a key transition.
///
/// Actions are built once from the configuration and are cloned before each
/// execution, so running them never mutates the configured template.
#[derive(Debug, PartialEq)]
pub enum Action {
    /// Flip the key's blink-enabled flag.
    ToggleBlinking,
    /// Flip the key's independent alternate-blink flag.
    ToggleBlinkingAlternativeColor,
    /// Ask the surrounding transport to publish `payload` on `topic`,
    /// both copied verbatim.
    PublishMqtt { topic: String, payload: String },
}

/// A publish the library asks its caller to perform: fire-and-forget
/// `(topic, payload)`, handed out instead of being sent directly so that the
/// whole core stays free of transport concerns.
#[derive(Clone, Debug, PartialEq)]
pub struct PublishRequest {
    pub topic: String,
    pub payload: String,
}

/// The runtime action described by a configuration-level press action.
pub open spec fn spec_action_of_press(c: OnPressAction) -> Action {
    match c {
        OnPressAction::ToggleBlinking => Action::ToggleBlinking,
        OnPressAction::ToggleBlinkingAlternativeColor => Action::ToggleBlinkingAlternativeColor,
        OnPressAction::Publish { topic, payload } => Action::PublishMqtt { topic, payload },
    }
}

/// The runtime action described by a configuration-level release action.
pub open spec fn spec_action_of_release(c: OnReleaseAction) -> Action {
    match c {
        OnReleaseAction::Publish { topic, payload } => Action::PublishMqtt { topic, payload },
    }
}

/// The publish request that executing an action hands out, if any.
pub open spec fn spec_action_request(a: Action) -> Option<PublishRequest> {
    match a {
        Action::ToggleBlinking => None,
        Action::ToggleBlinkingAlternativeColor => None,
        Action::PublishMqtt { topic, payload } => Some(PublishRequest { topic, payload }),
    }
}

impl Clone for Action {
    fn clone(&self) -> (res: Self)
        ensures
            res == *self,
    {
        match self {
            Action::ToggleBlinking => Action::ToggleBlinking,
            Action::ToggleBlinkingAlternativeColor => Action::ToggleBlinkingAlternativeColor,
            Action::PublishMqtt { topic, payload } => Action::PublishMqtt {
                topic: topic.clone(),
                payload: payload.clone(),
            },
        }
    }
}

impl<'a> From<&'a OnPressAction> for Action {
    fn from(value: &'a OnPressAction) -> (r: Self) {
        match value {
            OnPressAction::ToggleBlinking => Action::ToggleBlinking,
            OnPressAction::ToggleBlinkingAlternativeColor => {
                Action::ToggleBlinkingAlternativeColor
            },
            OnPressAction::Publish { topic, payload } => Action::PublishMqtt {
                topic: topic.clone(),
                payload: payload.clone(),
            },
        }
    }
}

impl<'a> vstd::std_specs::convert::FromSpecImpl<&'a OnPressAction> for Action {
    open spec fn obeys_from_spec() -> bool {
        true
    }

    open spec fn from_spec(value: &'a OnPressAction) -> Self {
        spec_action_of_press(*value)
    }
}

impl<'a> From<&'a OnReleaseAction> for Action {
    fn from(value: &'a OnReleaseAction) -> (r: Self) {
        match value {
            OnReleaseAction::Publish { topic, payload } => Action::PublishMqtt {
                topic: topic.clone(),
                payload: payload.clone(),
            },
        }
    }
}

impl<'a> vstd::std_specs::convert::FromSpecImpl<&'a OnReleaseAction> for Action {
    open spec fn obeys_from_spec() -> bool {
        true
    }

    open spec fn from_spec(value: &'a OnReleaseAction) -> Self {
        spec_action_of_release(*value)
    }
}

impl Action {
    /// Executes the action against one key.
    ///
    /// Toggle actions mutate the key's blink flags directly; a publish action
    /// leaves the key untouched and returns the request for the caller's
    /// publish capability.  No action can fail at this layer, so nothing is
    /// reported back beyond the optional request.
    pub fn execute(&self, key_state: &mut KeyState) -> (r: Option<PublishRequest>)
        ensures
            *final(key_state) == old(key_state).spec_after_action(*self),
            r == spec_action_request(*self),
    {
        match self {
            Action::ToggleBlinking => {
                key_state.toggle_blinking();
                None
            },
            Action::ToggleBlinkingAlternativeColor => {
                key_state.toggle_blinking_alternative_color();
                None
            },
            Action::PublishMqtt { topic, payload } => Some(PublishRequest {
                topic: topic.clone(),
                payload: payload.clone(),
            }),
        }
    }
}

/// A remotely issued command that mutates one key's blink flags directly,
/// bypassing the configured press/release action lists.
#[derive(Clone, Copy, Debug, PartialEq, Eq, Structural)]
pub enum ControlAction {
    ToggleBlinking,
    ToggleBlinkingAlternativeColor,
}

/// An ordered sequence of control actions destined for exactly one key; the
/// key itself is identified by the topic the packet arrived on.
#[derive(Clone, Debug)]
pub struct ControlPacket {
    pub actions: Vec<ControlAction>,
}

} // verus!
