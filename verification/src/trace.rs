//! The trace builder: gathers the snapshots of a run in execution order and
//! leaves out a snapshot whose local variables are those of the one before.

use crate::eval::{
    fresh_state, location_after, user_frame, EvaluatorState, MachineState, Settings, StepOutcome,
    Stepped, VisEvaluator,
};
use crate::fault::Fault;
use crate::frame::{Frame, MFrame};
use crate::spans::separated;
use crate::type_ids::TypeDefIds;
use crate::value::{
    float_eq, named_values_eq, named_values_same, value_eq, Value,
};
use vstd::prelude::*;

verus! {

/// The trace of a run: its snapshots in execution order.
#[derive(Debug)]
pub struct MOutput(pub Vec<MFrame>);

impl View for MOutput {
    type V = Seq<Frame>;

    open spec fn view(&self) -> Seq<Frame> {
        self.0@.map_values(|frame: MFrame| frame@)
    }
}

/// A trace with one more snapshot offered to it: the snapshot goes to the
/// end, unless its local variables equal those of the snapshot that is last.
pub open spec fn push_distinct(trace: Seq<Frame>, frame: Frame) -> Seq<Frame> {
    if trace.len() > 0 && named_values_eq(trace.last().locals, frame.locals) {
        trace
    } else {
        trace.push(frame)
    }
}

/// Whether the ranges of every snapshot of a trace are apart from each other
/// and in source order.
pub open spec fn ranges_in_order(trace: Seq<Frame>) -> bool {
    forall|i: int| 0 <= i < trace.len() ==> separated((#[trigger] trace[i]).ranges)
}

/// Whether no snapshot of a trace has the local variables of the one before it.
pub open spec fn no_repeats(trace: Seq<Frame>) -> bool {
    forall|i: int|
        0 <= i < trace.len() - 1 ==> !named_values_eq(
            (#[trigger] trace[i]).locals,
            trace[i + 1].locals,
        )
}

impl Settings {
    /// The trace of a run: what the outcomes of the machine's steps, taken in
    /// order from the given state of the evaluator, add to the trace so far.
    /// The run ends where the program does, or with the first fault.
    pub open spec fn run_spec(
        &self,
        state: EvaluatorState,
        trace: Seq<Frame>,
        outcomes: Seq<StepOutcome>,
    ) -> Result<Seq<Frame>, Fault>
        decreases outcomes.len(),
    {
        if outcomes.len() == 0 {
            Ok(trace)
        } else if outcomes[0] is Finished {
            Ok(trace)
        } else {
            let (stepped, next) = self.step_spec(state, outcomes[0]);
            match stepped {
                Ok(Some(frame)) => self.run_spec(
                    next,
                    push_distinct(trace, frame),
                    outcomes.drop_first(),
                ),
                Ok(None) => self.run_spec(next, trace, outcomes.drop_first()),
                Err(e) => Err(e),
            }
        }
    }

    /// The trace of a whole run, from the machine's state before its first
    /// step and the outcomes of its steps.
    pub open spec fn trace_spec(&self, initial: MachineState, outcomes: Seq<StepOutcome>) -> Result<
        Seq<Frame>,
        Fault,
    > {
        self.run_spec(
            EvaluatorState { location: location_after(None, initial), ..fresh_state() },
            Seq::empty(),
            outcomes,
        )
    }
}

impl MOutput {
    /// A trace with no snapshot in it.
    pub fn new() -> (output: MOutput)
        ensures
            output@ == Seq::<Frame>::empty(),
    {
        let output = MOutput(Vec::new());
        proof {
            assert(output@ =~= Seq::<Frame>::empty());
        }
        output
    }

    /// Offers a snapshot to the trace. It is taken unless its local
    /// variables equal those of the last snapshot taken.
    pub fn record(&mut self, frame: MFrame)
        ensures
            final(self)@ == push_distinct(old(self)@, frame@),
    {
        let count = self.0.len();
        let different = if count == 0 {
            true
        } else {
            !named_values_same(&self.0[count - 1].locals, &frame.locals)
        };
        if different {
            self.0.push(frame);
            proof {
                assert(self@ =~= old(self)@.push(frame@));
            }
        }
    }
}

/// Traces a recorded run: given the machine's state before its first step and
/// the outcomes of its steps in order, gives the snapshots of the steps that
/// landed in the program's own code, without repeats.
///
/// The run ends with the outcome that says the program finished, and with
/// the last outcome where none says so. A fault of the machine or of the
/// decoder ends it at once, and then there is no trace.
pub fn run(
    type_def_ids: TypeDefIds,
    max_depth: usize,
    initial: &MachineState,
    outcomes: &Vec<StepOutcome>,
) -> (result: Result<MOutput, Fault>)
    ensures
        match result {
            Ok(output) => (Settings { type_def_ids, max_depth: max_depth as nat }).trace_spec(
                *initial,
                outcomes@,
            ) == Ok::<Seq<Frame>, Fault>(output@),
            Err(e) => (Settings { type_def_ids, max_depth: max_depth as nat }).trace_spec(
                *initial,
                outcomes@,
            ) == Err::<Seq<Frame>, Fault>(e),
        },
{
    let ghost settings = Settings { type_def_ids, max_depth: max_depth as nat };
    let mut evaluator = VisEvaluator::new(type_def_ids, max_depth);
    evaluator.observe(initial);
    let mut output = MOutput::new();
    let mut i: usize = 0;
    proof {
        assert(outcomes@.skip(0) =~= outcomes@);
    }
    while i < outcomes.len()
        invariant
            i <= outcomes.len(),
            evaluator.settings() == settings,
            settings == (Settings { type_def_ids, max_depth: max_depth as nat }),
            settings.trace_spec(*initial, outcomes@) == settings.run_spec(
                evaluator.state(),
                output@,
                outcomes@.skip(i as int),
            ),
        decreases outcomes.len() - i,
    {
        proof {
            assert(outcomes@.skip(i as int)[0] == outcomes@[i as int]);
            assert(outcomes@.skip(i as int).drop_first() =~= outcomes@.skip(i + 1));
        }
        match evaluator.step(&outcomes[i]) {
            Ok(Stepped::Frame(frame)) => {
                output.record(frame);
            },
            Ok(Stepped::Hidden) => {},
            Ok(Stepped::Finished) => {
                return Ok(output);
            },
            Err(e) => {
                return Err(e);
            },
        }
        i = i + 1;
    }
    Ok(output)
}

/// Equality of floats is symmetric and transitive.
pub proof fn lemma_float_eq(a: u64, b: u64, c: u64)
    ensures
        float_eq(a, b) ==> float_eq(b, a),
        float_eq(a, b) && float_eq(b, c) ==> float_eq(a, c),
{
}

/// Equality of values is transitive.
pub proof fn lemma_value_eq_transitive(a: Value, b: Value, c: Value)
    requires
        value_eq(a, b),
        value_eq(b, c),
    ensures
        value_eq(a, c),
    decreases a,
{
    match (a, b, c) {
        (Value::Float(x), Value::Float(y), Value::Float(z)) => {
            lemma_float_eq(x, y, z);
        },
        (
            Value::Struct { name: n1, fields: f1 },
            Value::Struct { name: n2, fields: f2 },
            Value::Struct { name: n3, fields: f3 },
        ) => {
            lemma_named_values_eq_transitive(f1, f2, f3);
        },
        (Value::Array(x), Value::Array(y), Value::Array(z)) => {
            assert forall|i: int| 0 <= i < x.len() implies value_eq(#[trigger] x[i], z[i]) by {
                assert(value_eq(x[i], y[i]));
                assert(value_eq(y[i], z[i]));
                lemma_value_eq_transitive(x[i], y[i], z[i]);
            }
        },
        _ => {},
    }
}

/// Equality of lists of named values is transitive.
pub proof fn lemma_named_values_eq_transitive(
    a: Seq<(Seq<char>, Value)>,
    b: Seq<(Seq<char>, Value)>,
    c: Seq<(Seq<char>, Value)>,
)
    requires
        named_values_eq(a, b),
        named_values_eq(b, c),
    ensures
        named_values_eq(a, c),
    decreases a,
{
    assert forall|i: int| 0 <= i < a.len() implies (#[trigger] a[i]).0 == c[i].0 && value_eq(
        a[i].1,
        c[i].1,
    ) by {
        assert(a[i].0 == b[i].0 && value_eq(a[i].1, b[i].1));
        assert(b[i].0 == c[i].0 && value_eq(b[i].1, c[i].1));
        lemma_value_eq_transitive(a[i].1, b[i].1, c[i].1);
    }
}

/// Offering a snapshot to a trace without repeats leaves it without repeats.
pub proof fn lemma_push_distinct_keeps_no_repeats(trace: Seq<Frame>, frame: Frame)
    requires
        no_repeats(trace),
    ensures
        no_repeats(push_distinct(trace, frame)),
{
    let longer = push_distinct(trace, frame);
    assert forall|i: int| 0 <= i < longer.len() - 1 implies !named_values_eq(
        (#[trigger] longer[i]).locals,
        longer[i + 1].locals,
    ) by {
        if i < trace.len() - 1 {
            assert(longer[i] == trace[i]);
            assert(longer[i + 1] == trace[i + 1]);
        }
    }
}

/// Two snapshots in a row with equal local variables leave one snapshot in
/// the trace, not two: the second changes nothing.
pub proof fn lemma_equal_snapshots_count_once(trace: Seq<Frame>, first: Frame, second: Frame)
    requires
        named_values_eq(first.locals, second.locals),
    ensures
        push_distinct(push_distinct(trace, first), second) == push_distinct(trace, first),
{
    if trace.len() > 0 && named_values_eq(trace.last().locals, first.locals) {
        lemma_named_values_eq_transitive(trace.last().locals, first.locals, second.locals);
    }
}

impl Settings {
    /// The trace of a run has no repeats: no snapshot in it has the local
    /// variables of the one before it.
    pub proof fn lemma_run_has_no_repeats(
        &self,
        state: EvaluatorState,
        trace: Seq<Frame>,
        outcomes: Seq<StepOutcome>,
    )
        requires
            no_repeats(trace),
        ensures
            match self.run_spec(state, trace, outcomes) {
                Ok(whole) => no_repeats(whole),
                Err(_) => true,
            },
        decreases outcomes.len(),
    {
        if outcomes.len() > 0 && !(outcomes[0] is Finished) {
            let (stepped, next) = self.step_spec(state, outcomes[0]);
            match stepped {
                Ok(Some(frame)) => {
                    lemma_push_distinct_keeps_no_repeats(trace, frame);
                    self.lemma_run_has_no_repeats(
                        next,
                        push_distinct(trace, frame),
                        outcomes.drop_first(),
                    );
                },
                Ok(None) => {
                    self.lemma_run_has_no_repeats(next, trace, outcomes.drop_first());
                },
                Err(_) => {},
            }
        }
    }

    /// The trace of a whole run has no repeats.
    pub proof fn lemma_trace_has_no_repeats(&self, initial: MachineState, outcomes: Seq<StepOutcome>)
        ensures
            match self.trace_spec(initial, outcomes) {
                Ok(whole) => no_repeats(whole),
                Err(_) => true,
            },
    {
        self.lemma_run_has_no_repeats(
            EvaluatorState { location: location_after(None, initial), ..fresh_state() },
            Seq::empty(),
            outcomes,
        );
    }
}

impl Settings {
    /// In the trace of a run, the ranges of every snapshot are apart from
    /// each other and in source order.
    pub proof fn lemma_run_keeps_ranges_in_order(
        &self,
        state: EvaluatorState,
        trace: Seq<Frame>,
        outcomes: Seq<StepOutcome>,
    )
        requires
            ranges_in_order(trace),
        ensures
            match self.run_spec(state, trace, outcomes) {
                Ok(whole) => ranges_in_order(whole),
                Err(_) => true,
            },
        decreases outcomes.len(),
    {
        if outcomes.len() > 0 && !(outcomes[0] is Finished) {
            let (stepped, next) = self.step_spec(state, outcomes[0]);
            match stepped {
                Ok(Some(frame)) => {
                    match outcomes[0] {
                        StepOutcome::Running(machine) => {
                            self.lemma_frame_ranges_are_separate(
                                state.indexes,
                                &machine,
                                user_frame(machine)->0,
                                state.location,
                            );
                        },
                        _ => {},
                    }
                    let longer = push_distinct(trace, frame);
                    assert forall|i: int| 0 <= i < longer.len() implies separated(
                        (#[trigger] longer[i]).ranges,
                    ) by {
                        if i < trace.len() {
                            assert(longer[i] == trace[i]);
                        }
                    }
                    self.lemma_run_keeps_ranges_in_order(next, longer, outcomes.drop_first());
                },
                Ok(None) => {
                    self.lemma_run_keeps_ranges_in_order(next, trace, outcomes.drop_first());
                },
                Err(_) => {},
            }
        }
    }

    /// In the trace of a whole run, the ranges of every snapshot are apart
    /// from each other and in source order.
    pub proof fn lemma_trace_keeps_ranges_in_order(
        &self,
        initial: MachineState,
        outcomes: Seq<StepOutcome>,
    )
        ensures
            match self.trace_spec(initial, outcomes) {
                Ok(whole) => ranges_in_order(whole),
                Err(_) => true,
            },
    {
        self.lemma_run_keeps_ranges_in_order(
            EvaluatorState { location: location_after(None, initial), ..fresh_state() },
            Seq::empty(),
            outcomes,
        );
    }
}

} // verus!
