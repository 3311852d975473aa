use vstd::prelude::*;

verus! {

/// The kernel launch being set up on a thread: the arguments pushed so far, and
/// whether a launch has been configured and not yet launched.
pub struct ConfiguredCall {
    pub args: Vec<u64>,
    pub valid: bool,
}

/// A launch configuration as mathematical values.
pub ghost struct CallModel {
    pub args: Seq<u64>,
    pub valid: bool,
}

impl View for ConfiguredCall {
    type V = CallModel;

    open spec fn view(&self) -> CallModel {
        CallModel { args: self.args@, valid: self.valid }
    }
}

impl CallModel {
    /// A launch configuration as `new` makes it.
    pub open spec fn fresh() -> CallModel {
        CallModel { args: Seq::empty(), valid: false }
    }

    /// A configuration that is not open holds no argument.
    pub open spec fn wf(self) -> bool {
        !self.valid ==> self.args.len() == 0
    }

    /// After `start`.
    pub open spec fn started(self) -> CallModel {
        CallModel { valid: true, ..self }
    }

    /// After `add_arg(arg)`.
    pub open spec fn with_arg(self, arg: u64) -> CallModel {
        CallModel { args: self.args.push(arg), valid: true }
    }

    /// After `finish`.
    pub open spec fn finished(self) -> CallModel {
        CallModel { args: Seq::empty(), valid: false }
    }
}

impl ConfiguredCall {
    pub fn new() -> (r: ConfiguredCall)
        ensures
            r@ == CallModel::fresh(),
            r.args@ == Seq::<u64>::empty(),
            !r.valid,
    {
        ConfiguredCall { args: Vec::new(), valid: false }
    }

    /// Adds an argument to the configured launch.
    pub fn add_arg(&mut self, arg: u64)
        requires
            old(self).valid,
        ensures
            final(self)@ == old(self)@.with_arg(arg),
            final(self).args@ == old(self).args@.push(arg),
            final(self).valid,
    {
        self.args.push(arg);
    }

    /// Ends the configured launch: its arguments are dropped.
    pub fn finish(&mut self)
        requires
            old(self).valid,
        ensures
            final(self)@ == old(self)@.finished(),
            final(self).args@ == Seq::<u64>::empty(),
            !final(self).valid,
    {
        self.args.clear();
        self.valid = false;
    }

    /// Opens a new launch configuration.
    pub fn start(&mut self)
        requires
            !old(self).valid,
        ensures
            final(self)@ == old(self)@.started(),
            final(self).args@ == old(self).args@,
            final(self).valid,
    {
        self.valid = true;
    }
}

/// A call on a launch configuration.
pub enum CallStep {
    Start,
    AddArg(u64),
    Finish,
}

impl CallModel {
    /// Whether the call `step` does not panic on this configuration.
    pub open spec fn step_ok(self, step: CallStep) -> bool {
        match step {
            CallStep::Start => !self.valid,
            CallStep::AddArg(_) => self.valid,
            CallStep::Finish => self.valid,
        }
    }

    /// The configuration after the call `step`.
    pub open spec fn step(self, step: CallStep) -> CallModel {
        match step {
            CallStep::Start => self.started(),
            CallStep::AddArg(arg) => self.with_arg(arg),
            CallStep::Finish => self.finished(),
        }
    }

    /// The configuration after the calls `steps`, in order.
    pub open spec fn run(self, steps: Seq<CallStep>) -> CallModel
        decreases steps.len(),
    {
        if steps.len() == 0 {
            self
        } else {
            self.run(steps.drop_last()).step(steps.last())
        }
    }

    /// Whether none of the calls `steps` panics.
    pub open spec fn run_ok(self, steps: Seq<CallStep>) -> bool
        decreases steps.len(),
    {
        if steps.len() == 0 {
            true
        } else {
            self.run_ok(steps.drop_last()) && self.run(steps.drop_last()).step_ok(steps.last())
        }
    }
}

/// Whatever sequence of `start`, `add_arg` and `finish` a configuration goes through
/// from `new` without a panic, when it is not open it holds no argument.
pub proof fn lemma_configuration_runs(steps: Seq<CallStep>)
    requires
        CallModel::fresh().run_ok(steps),
    ensures
        CallModel::fresh().run(steps).wf(),
    decreases steps.len(),
{
    if steps.len() > 0 {
        lemma_configuration_runs(steps.drop_last());
    }
}

/// Opening a configuration that is not open and finishing it gives back what `new`
/// makes.
pub proof fn lemma_start_finish_is_new(m: CallModel)
    requires
        m.wf(),
        !m.valid,
    ensures
        m.run(seq![CallStep::Start, CallStep::Finish]) == CallModel::fresh(),
{
    let steps = seq![CallStep::Start, CallStep::Finish];
    assert(steps.drop_last() =~= seq![CallStep::Start]);
    assert(steps.drop_last().drop_last() =~= Seq::<CallStep>::empty());
    assert(m.run(steps) =~= CallModel::fresh());
}

} // verus!
