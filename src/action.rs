use vstd::prelude::*;

use crate::params::{module_of, param_module, BoolParam, FloatParam, Module, Param, StringParam};
use crate::state::Value;

verus! {

/// Commands handled by the engine itself.
#[derive(PartialEq, Eq, Structural, Clone, Copy, Debug)]
pub enum InternalAction {
    /// Push the full hardware state again, regardless of what was sent before.
    RefreshController,
}

/// Commands forwarded verbatim to the remote application.
#[derive(PartialEq, Eq, Structural, Clone, Copy, Debug)]
pub enum LightroomAction {
    NextPhoto,
    PreviousPhoto,
    Undo,
    Redo,
}

/// A pure description of an effect.
#[derive(PartialEq, Eq, Debug)]
pub enum Action {
    SetFloatParameter { parameter: FloatParam, value: i64 },
    SetBoolParameter { parameter: BoolParam, value: bool },
    SetStringParameter { parameter: StringParam, value: String },
    LightroomAction(LightroomAction),
    InternalAction(InternalAction),
}

impl Clone for Action {
    fn clone(&self) -> (r: Self)
        ensures
            r == *self,
    {
        match self {
            Action::SetFloatParameter { parameter, value } => Action::SetFloatParameter {
                parameter: *parameter,
                value: *value,
            },
            Action::SetBoolParameter { parameter, value } => Action::SetBoolParameter {
                parameter: *parameter,
                value: *value,
            },
            Action::SetStringParameter { parameter, value } => Action::SetStringParameter {
                parameter: parameter.clone(),
                value: value.clone(),
            },
            Action::LightroomAction(a) => Action::LightroomAction(*a),
            Action::InternalAction(a) => Action::InternalAction(*a),
        }
    }
}

/// A copy of a list of actions.
pub fn copy_actions(v: &Vec<Action>) -> (r: Vec<Action>)
    ensures
        r@ == v@,
{
    let mut r: Vec<Action> = Vec::new();
    let mut i: usize = 0;
    while i < v.len()
        invariant
            i <= v@.len(),
            r@ == v@.take(i as int),
        decreases v@.len() - i,
    {
        assert(v@.take(i + 1) =~= v@.take(i as int).push(v@[i as int]));
        r.push(v[i].clone());
        i = i + 1;
    }
    assert(v@.take(v@.len() as int) =~= v@);
    r
}

/// Messages for the remote application.
#[derive(PartialEq, Eq, Debug)]
pub enum OutgoingMessage {
    Notification { message: String },
    SetValue { parameter: Param, value: Value },
    Action(LightroomAction),
}

/// Where an action is consumed: by the engine, or by the remote application
/// as the given message.
#[derive(PartialEq, Eq, Debug)]
pub enum Route {
    Internal(Action),
    Remote(OutgoingMessage),
}

/// The routing table: parameter writes go where the parameter's module says,
/// application commands go out, internal commands stay.
pub open spec fn route_of(a: Action) -> Route {
    match a {
        Action::SetFloatParameter { parameter, value } => if module_of(Param::Float(parameter))
            == Module::Lightroom {
            Route::Remote(
                OutgoingMessage::SetValue {
                    parameter: Param::Float(parameter),
                    value: Value::Float(value),
                },
            )
        } else {
            Route::Internal(a)
        },
        Action::SetBoolParameter { parameter, value } => if module_of(Param::Bool(parameter))
            == Module::Lightroom {
            Route::Remote(
                OutgoingMessage::SetValue {
                    parameter: Param::Bool(parameter),
                    value: Value::Boolean(value),
                },
            )
        } else {
            Route::Internal(a)
        },
        Action::SetStringParameter { parameter, value } => if module_of(Param::String(parameter))
            == Module::Lightroom {
            Route::Remote(
                OutgoingMessage::SetValue {
                    parameter: Param::String(parameter),
                    value: Value::String(value),
                },
            )
        } else {
            Route::Internal(a)
        },
        Action::LightroomAction(c) => Route::Remote(OutgoingMessage::Action(c)),
        Action::InternalAction(_) => Route::Internal(a),
    }
}

/// Decides whether an action is applied internally or forwarded.
pub fn route(action: Action) -> (r: Route)
    ensures
        r == route_of(action),
{
    match action {
        Action::SetFloatParameter { parameter, value } => {
            let p = Param::Float(parameter);
            match param_module(&p) {
                Module::Lightroom => Route::Remote(
                    OutgoingMessage::SetValue { parameter: p, value: Value::Float(value) },
                ),
                Module::Internal => Route::Internal(Action::SetFloatParameter { parameter, value }),
            }
        },
        Action::SetBoolParameter { parameter, value } => {
            let p = Param::Bool(parameter);
            match param_module(&p) {
                Module::Lightroom => Route::Remote(
                    OutgoingMessage::SetValue { parameter: p, value: Value::Boolean(value) },
                ),
                Module::Internal => Route::Internal(Action::SetBoolParameter { parameter, value }),
            }
        },
        Action::SetStringParameter { parameter, value } => {
            let m = param_module(&Param::String(parameter.clone()));
            match m {
                Module::Lightroom => Route::Remote(
                    OutgoingMessage::SetValue {
                        parameter: Param::String(parameter),
                        value: Value::String(value),
                    },
                ),
                Module::Internal => Route::Internal(
                    Action::SetStringParameter { parameter, value },
                ),
            }
        },
        Action::LightroomAction(c) => Route::Remote(OutgoingMessage::Action(c)),
        Action::InternalAction(c) => Route::Internal(Action::InternalAction(c)),
    }
}

} // verus!
