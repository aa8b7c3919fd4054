//! The evaluator: watches the traced machine step by step and makes a frame
//! snapshot of each step that lands in the program's own code.
//!
//! The machine itself runs elsewhere. Before it takes its first step the
//! evaluator is shown the machine's state; after each step it is handed the
//! outcome of the step, and says what the step amounts to.

use crate::decode::Decoder;
use crate::fault::Fault;
use crate::frame::{insert_local, sort_by_name, Frame, MFrame};
use crate::layout::TypeTable;
use crate::memory::{Memory, Operand};
use crate::resolver::{spans_at, with_index, Body, Location, Resolver, SpannerView};
use crate::spans::{lemma_merged_ranges_are_separate, merged_ranges, separated};
use crate::type_ids::TypeDefIds;
use crate::value::{named_values_view, MValue, Value};
use vstd::prelude::*;

verus! {

/// One local variable slot of a stack frame.
#[derive(Debug, Clone)]
pub struct LocalSlot {
    /// The variable's name as the source declares it.
    pub name: String,
    /// Whether the program declares the variable, as opposed to a temporary
    /// that the compiler made up.
    pub user_declared: bool,
    /// Whether the slot holds a value at this moment.
    pub live: bool,
    /// Where the value lies.
    pub operand: Operand,
}

/// One activation on the call stack of the traced machine.
#[derive(Debug)]
pub struct StackFrame {
    /// Identity of the function.
    pub def_id: u64,
    /// Whether the function belongs to the program under inspection, and not
    /// to a library that supports it.
    pub user_code: bool,
    /// The function's name, where it has one.
    pub name: Option<String>,
    /// The function's body, for the resolver.
    pub body: Body,
    pub locals: Vec<LocalSlot>,
    /// Where the activation is executing.
    pub location: Location,
}

/// The state of the traced machine between two steps.
#[derive(Debug)]
pub struct MachineState {
    /// The types that the program's values have. The table may grow from one
    /// state to the next; a type keeps its index.
    pub types: TypeTable,
    pub memory: Memory,
    /// The call stack, the executing activation last.
    pub stack: Vec<StackFrame>,
}

/// What a step of the traced machine gave.
#[derive(Debug)]
pub enum StepOutcome {
    /// The machine took the step and is in this state now.
    Running(MachineState),
    /// The program has run to its end.
    Finished,
    /// The program ended abnormally; the text is the machine's report.
    Failed(String),
}

/// What the evaluator makes of a step.
#[derive(Debug)]
pub enum Stepped {
    /// The step landed in the program's own code: here is its snapshot.
    Frame(MFrame),
    /// The step landed outside the program's own code and is not shown.
    Hidden,
    /// There was no step: the program has run to its end.
    Finished,
}

/// The name given to a function that has none.
pub open spec fn placeholder_name() -> Seq<char> {
    "Unknown"@
}

/// Whether a local variable shows in a snapshot: the program declares it and
/// it holds a value.
pub open spec fn visible(slot: LocalSlot) -> bool {
    slot.user_declared && slot.live
}

/// The executing activation of a state, where its stack is not empty.
pub open spec fn top_frame(state: MachineState) -> Option<StackFrame> {
    if state.stack.len() > 0 {
        Some(state.stack@.last())
    } else {
        None
    }
}

/// The executing activation of a state, where it belongs to the program's
/// own code.
pub open spec fn user_frame(state: MachineState) -> Option<StackFrame> {
    match top_frame(state) {
        Some(frame) => if frame.user_code {
            Some(frame)
        } else {
            None
        },
        None => None,
    }
}

/// The location that the evaluator holds once it has seen a state: that of
/// the executing activation where it is the program's own code, else the one
/// it held before.
pub open spec fn location_after(held: Option<Location>, state: MachineState) -> Option<Location> {
    match user_frame(state) {
        Some(frame) => Some(frame.location),
        None => held,
    }
}

impl<'a> Decoder<'a> {
    /// The visible local variables of a frame with their values, in the
    /// order of their slots. The first slot that faults ends the decoding.
    pub open spec fn decode_locals(&self, slots: Seq<LocalSlot>, depth: nat) -> Result<
        Seq<(Seq<char>, Value)>,
        Fault,
    >
        decreases slots.len(),
    {
        if slots.len() == 0 {
            Ok(Seq::empty())
        } else {
            match self.decode_locals(slots.drop_last(), depth) {
                Ok(front) => if visible(slots.last()) {
                    match self.decode(slots.last().operand, depth) {
                        Ok(v) => Ok(front.push((slots.last().name@, v))),
                        Err(e) => Err(e),
                    }
                } else {
                    Ok(front)
                },
                Err(e) => Err(e),
            }
        }
    }

    /// A fault among the first slots is the fault of them all.
    pub proof fn lemma_locals_fault_stays(&self, slots: Seq<LocalSlot>, upto: int, depth: nat)
        requires
            0 <= upto <= slots.len(),
        ensures
            self.decode_locals(slots.subrange(0, upto), depth) is Err ==> self.decode_locals(
                slots,
                depth,
            ) == self.decode_locals(slots.subrange(0, upto), depth),
        decreases slots.len() - upto,
    {
        if upto < slots.len() {
            let next = slots.subrange(0, upto + 1);
            assert(next.drop_last() =~= slots.subrange(0, upto));
            self.lemma_locals_fault_stays(slots, upto + 1, depth);
        } else {
            assert(slots.subrange(0, upto) =~= slots);
        }
    }

    /// Decodes the visible local variables of a frame and lists them in
    /// order of name.
    pub fn read_locals(&self, slots: &Vec<LocalSlot>, depth: usize) -> (result: Result<
        Vec<(String, MValue)>,
        Fault,
    >)
        ensures
            match result {
                Ok(locals) => match self.decode_locals(slots@, depth as nat) {
                    Ok(decoded) => named_values_view(locals@) == sort_by_name(decoded),
                    Err(_) => false,
                },
                Err(e) => self.decode_locals(slots@, depth as nat) == Err::<
                    Seq<(Seq<char>, Value)>,
                    Fault,
                >(e),
            },
    {
        let mut locals: Vec<(String, MValue)> = Vec::new();
        let mut i: usize = 0;
        proof {
            assert(slots@.subrange(0, 0) =~= Seq::<LocalSlot>::empty());
        }
        while i < slots.len()
            invariant
                i <= slots.len(),
                match self.decode_locals(slots@.subrange(0, i as int), depth as nat) {
                    Ok(decoded) => named_values_view(locals@) == sort_by_name(decoded),
                    Err(_) => false,
                },
            decreases slots.len() - i,
        {
            let slot = &slots[i];
            proof {
                let upto = slots@.subrange(0, i + 1);
                assert(upto.drop_last() =~= slots@.subrange(0, i as int));
                assert(upto.last() == slots@[i as int]);
                self.lemma_locals_fault_stays(slots@, i + 1, depth as nat);
            }
            if slot.user_declared && slot.live {
                let value = match self.read(&slot.operand, depth) {
                    Ok(v) => v,
                    Err(e) => {
                        return Err(e);
                    },
                };
                let ghost decoded = self.decode_locals(slots@.subrange(0, i as int), depth as nat)->Ok_0;
                proof {
                    assert(decoded.push((slot.name@, value@)).drop_last() =~= decoded);
                }
                insert_local(&mut locals, slot.name.clone(), value);
            }
            i = i + 1;
        }
        proof {
            assert(slots@.subrange(0, slots.len() as int) =~= slots@);
        }
        Ok(locals)
    }
}

/// The evaluator: the program's well-known types, the function indexes built
/// so far, and the location held for the next snapshot.
pub struct VisEvaluator {
    type_def_ids: TypeDefIds,
    resolver: Resolver,
    current_loc: Option<Location>,
    max_depth: usize,
}

/// What an evaluator is set up with, and what never changes while it runs.
pub struct Settings {
    /// The well-known type definitions of the traced program.
    pub type_def_ids: TypeDefIds,
    /// How many levels deep a value is decoded.
    pub max_depth: nat,
}

/// Mathematical model of the evaluator's state: the function indexes it has
/// built, and the location it holds for the next snapshot.
pub struct EvaluatorState {
    pub indexes: Map<u64, SpannerView>,
    pub location: Option<Location>,
}

/// The state of an evaluator that has seen nothing yet.
pub open spec fn fresh_state() -> EvaluatorState {
    EvaluatorState { indexes: Map::<u64, SpannerView>::empty(), location: None }
}

impl Settings {
    /// The decoder that these settings make for a state of the machine.
    pub open spec fn decoder<'a>(&'a self, machine: &'a MachineState) -> Decoder<'a> {
        Decoder {
            types: &machine.types,
            type_def_ids: &self.type_def_ids,
            memory: &machine.memory,
        }
    }

    /// The snapshot of a frame, given the function indexes built so far and
    /// the location that was executing; or the fault that decoding a local
    /// variable raises.
    pub open spec fn frame_spec(
        &self,
        indexes: Map<u64, SpannerView>,
        machine: &MachineState,
        frame: StackFrame,
        location: Option<Location>,
    ) -> Result<Frame, Fault> {
        match self.decoder(machine).decode_locals(frame.locals@, self.max_depth) {
            Ok(decoded) => Ok(
                Frame {
                    name: match frame.name {
                        Some(name) => name@,
                        None => placeholder_name(),
                    },
                    ranges: merged_ranges(
                        spans_at(with_index(indexes, frame.def_id, frame.body)[frame.def_id], location),
                    ),
                    locals: sort_by_name(decoded),
                },
            ),
            Err(e) => Err(e),
        }
    }

    /// What the outcome of a machine step amounts to, and the state the
    /// evaluator is in afterwards.
    pub open spec fn step_spec(&self, state: EvaluatorState, outcome: StepOutcome) -> (
        Result<Option<Frame>, Fault>,
        EvaluatorState,
    ) {
        match outcome {
            StepOutcome::Running(machine) => match user_frame(machine) {
                Some(frame) => (
                    match self.frame_spec(state.indexes, &machine, frame, state.location) {
                        Ok(snapshot) => Ok(Some(snapshot)),
                        Err(e) => Err(e),
                    },
                    EvaluatorState {
                        indexes: with_index(state.indexes, frame.def_id, frame.body),
                        location: Some(frame.location),
                    },
                ),
                None => (Ok(None), state),
            },
            StepOutcome::Finished => (Ok(None), state),
            StepOutcome::Failed(report) => (Err(Fault::Execution(report)), state),
        }
    }
}

impl Settings {
    /// The ranges of a snapshot are apart from each other and in source
    /// order, whatever the location and the function.
    pub proof fn lemma_frame_ranges_are_separate(
        &self,
        indexes: Map<u64, SpannerView>,
        machine: &MachineState,
        frame: StackFrame,
        location: Option<Location>,
    )
        ensures
            match self.frame_spec(indexes, machine, frame, location) {
                Ok(snapshot) => separated(snapshot.ranges),
                Err(_) => true,
            },
    {
        lemma_merged_ranges_are_separate(
            spans_at(with_index(indexes, frame.def_id, frame.body)[frame.def_id], location),
        );
    }
}

impl VisEvaluator {
    /// The evaluator's state.
    pub closed spec fn state(&self) -> EvaluatorState {
        EvaluatorState { indexes: self.resolver@, location: self.current_loc }
    }

    /// What the evaluator was set up with.
    pub closed spec fn settings(&self) -> Settings {
        Settings {
            type_def_ids: self.type_def_ids,
            max_depth: self.max_depth as nat,
        }
    }

    /// An evaluator for a program with the given well-known types, which
    /// decodes values at most `max_depth` levels deep.
    pub fn new(type_def_ids: TypeDefIds, max_depth: usize) -> (evaluator: VisEvaluator)
        ensures
            evaluator.settings() == (Settings { type_def_ids, max_depth: max_depth as nat }),
            evaluator.state() == fresh_state(),
    {
        VisEvaluator {
            type_def_ids,
            resolver: Resolver::new(),
            current_loc: None,
            max_depth,
        }
    }

    /// Takes note of the machine's state before it steps: where the
    /// executing activation is the program's own code, its location is the
    /// one that the next step executes.
    pub fn observe(&mut self, state: &MachineState)
        ensures
            final(self).settings() == old(self).settings(),
            final(self).state() == (EvaluatorState {
                indexes: old(self).state().indexes,
                location: location_after(old(self).state().location, *state),
            }),
    {
        let depth = state.stack.len();
        if depth > 0 {
            let frame = &state.stack[depth - 1];
            if frame.user_code {
                self.current_loc = Some(frame.location);
            }
        }
    }

    /// Makes the snapshot of a frame of the machine: the function's name,
    /// the ranges that were executing at `current_loc`, and the local
    /// variables that the program declares and that hold a value, decoded
    /// and in order of name.
    pub fn build_frame(
        &mut self,
        machine: &MachineState,
        frame: &StackFrame,
        current_loc: &Option<Location>,
    ) -> (result: Result<MFrame, Fault>)
        ensures
            final(self).settings() == old(self).settings(),
            final(self).state() == (EvaluatorState {
                indexes: with_index(old(self).state().indexes, frame.def_id, frame.body),
                location: old(self).state().location,
            }),
            match result {
                Ok(snapshot) => old(self).settings().frame_spec(
                    old(self).state().indexes,
                    machine,
                    *frame,
                    *current_loc,
                ) == Ok::<Frame, Fault>(snapshot@),
                Err(e) => old(self).settings().frame_spec(
                    old(self).state().indexes,
                    machine,
                    *frame,
                    *current_loc,
                ) == Err::<Frame, Fault>(e),
            },
    {
        let name = match &frame.name {
            Some(name) => name.clone(),
            None => String::from_str("Unknown"),
        };
        let ranges = self.resolver.ranges_for(current_loc, frame.def_id, &frame.body);
        let decoder = Decoder {
            types: &machine.types,
            type_def_ids: &self.type_def_ids,
            memory: &machine.memory,
        };
        let locals = match decoder.read_locals(&frame.locals, self.max_depth) {
            Ok(locals) => locals,
            Err(e) => {
                return Err(e);
            },
        };
        Ok(MFrame { name, ranges, locals })
    }

    /// Takes the outcome of one machine step.
    ///
    /// A step that lands in the program's own code gives a snapshot, made
    /// with the location that was executing before the step; the activation's
    /// own location is then held for the step to come. A step that lands
    /// elsewhere is hidden and changes nothing. A fault of the machine is
    /// passed on.
    pub fn step(&mut self, outcome: &StepOutcome) -> (result: Result<Stepped, Fault>)
        ensures
            final(self).settings() == old(self).settings(),
            final(self).state() == old(self).settings().step_spec(old(self).state(), *outcome).1,
            match result {
                Ok(Stepped::Frame(snapshot)) => outcome is Running && old(self).settings().step_spec(
                    old(self).state(),
                    *outcome,
                ).0 == Ok::<Option<Frame>, Fault>(Some(snapshot@)),
                Ok(Stepped::Hidden) => outcome is Running && old(self).settings().step_spec(
                    old(self).state(),
                    *outcome,
                ).0 == Ok::<Option<Frame>, Fault>(None),
                Ok(Stepped::Finished) => outcome is Finished,
                Err(e) => old(self).settings().step_spec(old(self).state(), *outcome).0 == Err::<
                    Option<Frame>,
                    Fault,
                >(e),
            },
    {
        match outcome {
            StepOutcome::Running(machine) => {
                let depth = machine.stack.len();
                if depth == 0 {
                    return Ok(Stepped::Hidden);
                }
                let frame = &machine.stack[depth - 1];
                if !frame.user_code {
                    return Ok(Stepped::Hidden);
                }
                let held = self.current_loc;
                let built = self.build_frame(machine, frame, &held);
                self.current_loc = Some(frame.location);
                match built {
                    Ok(snapshot) => Ok(Stepped::Frame(snapshot)),
                    Err(e) => Err(e),
                }
            },
            StepOutcome::Finished => Ok(Stepped::Finished),
            StepOutcome::Failed(report) => Err(Fault::Execution(report.clone())),
        }
    }
}

} // verus!
