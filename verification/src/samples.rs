//! Ready-made [`Condition`] and [`Action`] implementations: fixed-answer
//! guards and a pair of simple actions. Hosts can register them under type
//! names, and they exercise the engine without reaching outside it.

use vstd::prelude::*;

use crate::action::{Action, ActionError};
use crate::condition::Condition;
use crate::value::{obj_get, NodeContext, FlowValue, ValueView};

verus! {

/// A guard that always passes.
#[derive(Debug)]
pub struct PositiveCondition;

impl Condition for PositiveCondition {
    open spec fn spec_eval(&self, context: Map<Seq<char>, ValueView>) -> bool {
        true
    }

    fn evaluate(&self, context: &NodeContext) -> (r: bool)
        ensures
            r == self.spec_eval(context@),
    {
        true
    }
}

/// A guard that never passes.
#[derive(Debug)]
pub struct NegativeCondition;

impl Condition for NegativeCondition {
    open spec fn spec_eval(&self, context: Map<Seq<char>, ValueView>) -> bool {
        false
    }

    fn evaluate(&self, context: &NodeContext) -> (r: bool)
        ensures
            r == self.spec_eval(context@),
    {
        false
    }
}

/// A guard that passes exactly when its configuration object carries a
/// `key` entry.
#[derive(Debug)]
pub struct ConfigurableCondition {
    config: FlowValue,
}

impl ConfigurableCondition {
    /// Remembers the configuration the guard will consult.
    pub fn new(config: &FlowValue) -> (r: ConfigurableCondition)
        ensures
            r.spec_config() == config@,
    {
        ConfigurableCondition { config: config.clone() }
    }

    /// The configuration the guard consults.
    pub closed spec fn spec_config(&self) -> ValueView {
        self.config@
    }
}

impl Condition for ConfigurableCondition {
    open spec fn spec_eval(&self, context: Map<Seq<char>, ValueView>) -> bool {
        obj_get(self.spec_config(), "key"@) is Some
    }

    fn evaluate(&self, context: &NodeContext) -> (r: bool)
        ensures
            r == self.spec_eval(context@),
    {
        self.config.get_key("key").is_some()
    }
}

/// The guards above as one registrable family, so that a single graph can
/// mix them.
#[derive(Debug)]
pub enum SampleCondition {
    Positive(PositiveCondition),
    Negative(NegativeCondition),
    Configurable(ConfigurableCondition),
}

impl Condition for SampleCondition {
    open spec fn spec_eval(&self, context: Map<Seq<char>, ValueView>) -> bool {
        match self {
            SampleCondition::Positive(c) => c.spec_eval(context),
            SampleCondition::Negative(c) => c.spec_eval(context),
            SampleCondition::Configurable(c) => c.spec_eval(context),
        }
    }

    fn evaluate(&self, context: &NodeContext) -> (r: bool)
        ensures
            r == self.spec_eval(context@),
    {
        match self {
            SampleCondition::Positive(c) => c.evaluate(context),
            SampleCondition::Negative(c) => c.evaluate(context),
            SampleCondition::Configurable(c) => c.evaluate(context),
        }
    }
}

/// Builds the always-true guard; the configuration and declared input
/// variables are ignored.
pub fn create_positive_condition(config: &FlowValue, input_vars: &FlowValue) -> (r: SampleCondition)
    ensures
        r matches SampleCondition::Positive(_),
{
    SampleCondition::Positive(PositiveCondition)
}

/// Builds the always-false guard; the configuration and declared input
/// variables are ignored.
pub fn create_negative_condition(config: &FlowValue, input_vars: &FlowValue) -> (r: SampleCondition)
    ensures
        r matches SampleCondition::Negative(_),
{
    SampleCondition::Negative(NegativeCondition)
}

/// Builds the configuration-driven guard.
pub fn create_configurable_condition(config: &FlowValue, input_vars: &FlowValue) -> (r: SampleCondition)
    ensures
        r matches SampleCondition::Configurable(c) && c.spec_config() == config@,
{
    SampleCondition::Configurable(ConfigurableCondition::new(config))
}

/// What [`TestAction`] writes under `test_var`: the string the context holds
/// under `test_config`, or `"test_value"` when it holds none.
pub open spec fn test_action_output(pre: Map<Seq<char>, ValueView>) -> ValueView {
    if pre.contains_key("test_config"@) && pre["test_config"@] matches ValueView::Str(_) {
        pre["test_config"@]
    } else {
        ValueView::Str("test_value"@)
    }
}

/// An action that copies the `test_config` variable (or a fixed fallback)
/// into `test_var` and otherwise leaves the context alone.
#[derive(Debug)]
pub struct TestAction {
    config: FlowValue,
}

impl TestAction {
    /// Remembers a configuration; the action's behaviour reads the live
    /// context, not the configuration.
    pub fn new(config: &FlowValue) -> (r: TestAction)
        ensures
            r.spec_config() == config@,
    {
        TestAction { config: config.clone() }
    }

    /// The configuration the action was built with.
    pub closed spec fn spec_config(&self) -> ValueView {
        self.config@
    }
}

impl Action for TestAction {
    open spec fn post(
        &self,
        pre: Map<Seq<char>, ValueView>,
        r: Result<Map<Seq<char>, ValueView>, Seq<char>>,
    ) -> bool {
        r == Result::<Map<Seq<char>, ValueView>, Seq<char>>::Ok(
            pre.insert("test_var"@, test_action_output(pre)),
        )
    }

    fn execute(&self, context: &NodeContext) -> (r: Result<NodeContext, ActionError>)
        ensures
            match r {
                Ok(c) => c.wf() && self.post(context@, Ok(c@)),
                Err(e) => self.post(context@, Err(e@)),
            },
    {
        let out: String = match context.get_var("test_config") {
            Some(v) => match v.as_str() {
                Some(s) => s.clone(),
                None => "test_value".to_owned(),
            },
            None => "test_value".to_owned(),
        };
        let mut next = context.clone();
        next.set_var("test_var".to_owned(), FlowValue::String(out));
        Ok(next)
    }
}

/// An action that always fails, with a fixed message.
#[derive(Debug)]
pub struct FailTestAction;

impl Action for FailTestAction {
    open spec fn post(
        &self,
        pre: Map<Seq<char>, ValueView>,
        r: Result<Map<Seq<char>, ValueView>, Seq<char>>,
    ) -> bool {
        r == Result::<Map<Seq<char>, ValueView>, Seq<char>>::Err("Action failed"@)
    }

    fn execute(&self, context: &NodeContext) -> (r: Result<NodeContext, ActionError>)
        ensures
            match r {
                Ok(c) => c.wf() && self.post(context@, Ok(c@)),
                Err(e) => self.post(context@, Err(e@)),
            },
    {
        Err(ActionError { message: "Action failed".to_owned() })
    }
}

/// The actions above as one registrable family, so that a single pipeline
/// can mix them.
#[derive(Debug)]
pub enum SampleAction {
    Test(TestAction),
    Fail(FailTestAction),
}

impl Action for SampleAction {
    open spec fn post(
        &self,
        pre: Map<Seq<char>, ValueView>,
        r: Result<Map<Seq<char>, ValueView>, Seq<char>>,
    ) -> bool {
        match self {
            SampleAction::Test(a) => a.post(pre, r),
            SampleAction::Fail(a) => a.post(pre, r),
        }
    }

    fn execute(&self, context: &NodeContext) -> (r: Result<NodeContext, ActionError>)
        ensures
            match r {
                Ok(c) => c.wf() && self.post(context@, Ok(c@)),
                Err(e) => self.post(context@, Err(e@)),
            },
    {
        match self {
            SampleAction::Test(a) => a.execute(context),
            SampleAction::Fail(a) => a.execute(context),
        }
    }
}

/// Builds the context-copying action; the declared input and output
/// variables are ignored.
pub fn create_test_action(config: &FlowValue, input_vars: &FlowValue, output_vars: &FlowValue) -> (r:
    SampleAction)
    ensures
        r matches SampleAction::Test(a) && a.spec_config() == config@,
{
    SampleAction::Test(TestAction::new(config))
}

/// Builds the always-failing action; every argument is ignored.
pub fn create_fail_action(config: &FlowValue, input_vars: &FlowValue, output_vars: &FlowValue) -> (r:
    SampleAction)
    ensures
        r matches SampleAction::Fail(_),
{
    SampleAction::Fail(FailTestAction)
}

} // verus!
