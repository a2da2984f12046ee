use std::collections::{HashMap, HashSet};
use vstd::prelude::*;
use crate::model::{Model, Operation, get_type_size, type_size};
use crate::load_balancer::iteration_order;

verus! {

broadcast use vstd::std_specs::hash::group_hash_axioms;

/// Storing a value of the right size for a declared variable keeps the invariant.
proof fn lemma_with_value_keeps_wf(v: RuntimeView, id: u32, value: Vec<u8>)
    requires
        v.wf(),
        (id as int) < v.model.variables@.len(),
        value@.len() == type_size(v.model.variables@[id as int].ty),
    ensures
        v.with_value(id, value).wf(),
{
    let after = v.with_value(id, value);
    assert forall|op: u32| #[trigger] after.ready.contains(op) implies after.model.runnable(op, after.computed.dom()) by {
        let inputs = after.model.operations@[op as int].inputs@;
        assert forall|j: int| 0 <= j < inputs.len() implies after.computed.dom().contains(#[trigger] inputs[j]) by {
            assert(v.computed.dom().contains(inputs[j]));
        }
    }
    if after.all_done {
        assert forall|j: int| 0 <= j < after.model.outputs@.len() implies after.computed.contains_key(
            #[trigger] after.model.outputs@[j]) by {
            assert(v.computed.contains_key(v.model.outputs@[j]));
        }
    }
}

/// The abstract state of the runtime.
pub struct RuntimeView {
    pub model: Model,
    pub computed: Map<u32, Vec<u8>>,
    pub ready: Set<u32>,
    pub in_progress: Set<u32>,
    pub completed: Set<u32>,
    pub all_done: bool,
}

/// `s` is strictly increasing.
pub open spec fn strictly_increasing(s: Seq<u32>) -> bool {
    forall|i: int, j: int| 0 <= i < j < s.len() ==> s[i] < s[j]
}

impl RuntimeView {
    /// Operation `op` exists, all its inputs are computed, and it is neither
    /// completed nor already marked ready.
    pub open spec fn eligible(self, op: u32) -> bool {
        &&& self.model.runnable(op, self.computed.dom())
        &&& !self.completed.contains(op)
        &&& !self.ready.contains(op)
    }

    /// The operations that a readiness check marks ready.
    pub open spec fn newly_ready(self) -> Set<u32> {
        Set::new(|op: u32| self.eligible(op))
    }

    /// Every output variable of the model has been computed.
    pub open spec fn outputs_computed(self) -> bool {
        forall|j: int|
            0 <= j < self.model.outputs@.len() ==> self.computed.contains_key(
                #[trigger] self.model.outputs@[j],
            )
    }

    /// The state after a readiness check: the eligible operations join the ready ones.
    pub open spec fn after_readiness_check(self) -> RuntimeView {
        RuntimeView { ready: self.ready.union(self.newly_ready()), ..self }
    }

    /// The state once variable `id` holds `value`.
    pub open spec fn with_value(self, id: u32, value: Vec<u8>) -> RuntimeView {
        RuntimeView { computed: self.computed.insert(id, value), ..self }
    }

    /// The state once `op`, taken from the ready operations, is in progress.
    pub open spec fn after_claim(self, op: u32) -> RuntimeView {
        RuntimeView {
            ready: self.ready.remove(op),
            in_progress: self.in_progress.insert(op),
            ..self
        }
    }

    /// The state once `op`, received from the work channel, is in progress.
    pub open spec fn after_receive(self, op: u32) -> RuntimeView {
        RuntimeView { in_progress: self.in_progress.insert(op), ..self }
    }

    /// The state once a worker has decided whether to run `op`: a completed
    /// operation is dropped from those in progress; otherwise nothing changes.
    pub open spec fn after_begin(self, op: u32) -> RuntimeView {
        if self.completed.contains(op) {
            RuntimeView { in_progress: self.in_progress.remove(op), ..self }
        } else {
            self
        }
    }

    /// The state once `op` has completed: it joins the completed operations and
    /// leaves those in progress and those ready, and the operations it made
    /// runnable become ready.
    pub open spec fn after_completion(self, op: u32) -> RuntimeView {
        let finished = self.finished(op);
        let checked = finished.after_readiness_check();
        RuntimeView { all_done: checked.all_done || checked.outputs_computed(), ..checked }
    }

    /// The state once `op` is recorded as completed, before the readiness check.
    pub open spec fn finished(self, op: u32) -> RuntimeView {
        RuntimeView {
            ready: self.ready.remove(op),
            in_progress: self.in_progress.remove(op),
            completed: self.completed.insert(op),
            ..self
        }
    }

    /// Every stored value belongs to a variable of the model and has its type's size.
    pub open spec fn values_sized(self) -> bool {
        forall|id: u32| #[trigger] self.computed.contains_key(id) ==> {
            &&& (id as int) < self.model.variables@.len()
            &&& self.computed[id]@.len() == type_size(self.model.variables@[id as int].ty)
        }
    }

    /// The invariant of the runtime: only runnable operations are ready, no
    /// completed operation is ready, every stored value has its variable's
    /// size, and the runtime is done only once every output is computed.
    pub open spec fn wf(self) -> bool {
        &&& self.model.wf()
        &&& forall|op: u32| #[trigger]
            self.ready.contains(op) ==> self.model.runnable(op, self.computed.dom())
        &&& self.ready.disjoint(self.completed)
        &&& self.values_sized()
        &&& self.all_done ==> self.outputs_computed()
    }
}

/// The runtime's bookkeeping: the model, the values of the computed variables,
/// and the operations that are ready, in progress and completed.
pub struct RuntimeState {
    model: Model,
    computed_variables: HashMap<u32, Vec<u8>>,
    ready_operations: HashSet<u32>,
    in_progress_operations: HashSet<u32>,
    completed_operations: HashSet<u32>,
    all_done: bool,
}

impl View for RuntimeState {
    type V = RuntimeView;

    closed spec fn view(&self) -> RuntimeView {
        RuntimeView {
            model: self.model,
            computed: self.computed_variables@,
            ready: self.ready_operations@,
            in_progress: self.in_progress_operations@,
            completed: self.completed_operations@,
            all_done: self.all_done,
        }
    }
}

impl RuntimeState {
    /// A runtime for `model` with nothing computed, ready, running or completed.
    pub fn new(model: Model) -> (state: Self)
        requires
            model.wf(),
        ensures
            state@ == (RuntimeView {
                model,
                computed: Map::empty(),
                ready: Set::empty(),
                in_progress: Set::empty(),
                completed: Set::empty(),
                all_done: false,
            }),
            state@.wf(),
    {
        RuntimeState {
            model,
            computed_variables: HashMap::new(),
            ready_operations: HashSet::new(),
            in_progress_operations: HashSet::new(),
            completed_operations: HashSet::new(),
            all_done: false,
        }
    }

    /// The model that this runtime executes.
    pub fn model(&self) -> (model: &Model)
        ensures
            *model == self@.model,
    {
        &self.model
    }

    /// The number of bytes of a value of variable `id`.
    pub fn variable_size(&self, id: u32) -> (size: usize)
        requires
            (id as int) < self@.model.variables@.len(),
        ensures
            size == type_size(self@.model.variables@[id as int].ty),
    {
        get_type_size(&self.model.variables[id as usize].ty)
    }

    /// The value of variable `id`, if it has been computed.
    pub fn request(&self, id: u32) -> (value: Option<&Vec<u8>>)
        ensures
            match value {
                Some(v) => self@.computed.contains_key(id) && *v == self@.computed[id],
                None => !self@.computed.contains_key(id),
            },
    {
        self.computed_variables.get(&id)
    }

    /// Records `value`, the bytes of a value of variable `id`, without looking
    /// for operations that it makes ready.
    pub fn store_variable(&mut self, id: u32, value: Vec<u8>)
        requires
            old(self)@.wf(),
            (id as int) < old(self)@.model.variables@.len(),
            value@.len() == type_size(old(self)@.model.variables@[id as int].ty),
        ensures
            final(self)@ == old(self)@.with_value(id, value),
            final(self)@.wf(),
    {
        proof {
            lemma_with_value_keeps_wf(old(self)@, id, value);
        }
        self.computed_variables.insert(id, value);
    }

    /// Records `value`, the bytes of a value of variable `id`, and marks ready
    /// the operations that are now runnable. Returns the ids of the operations
    /// newly marked ready, in increasing order: those to hand to the workers.
    pub fn submit(&mut self, id: u32, value: Vec<u8>) -> (ready: Vec<u32>)
        requires
            old(self)@.wf(),
            (id as int) < old(self)@.model.variables@.len(),
            value@.len() == type_size(old(self)@.model.variables@[id as int].ty),
        ensures
            final(self)@.wf(),
            final(self)@ == old(self)@.with_value(id, value).after_readiness_check(),
            ready@.to_set() == old(self)@.with_value(id, value).newly_ready(),
            strictly_increasing(ready@),
            forall|i: int| 0 <= i < ready@.len() ==> (#[trigger] ready@[i] as int) < final(self)@.model.operations@.len(),
            forall|i: int, j: int|
                0 <= i < ready@.len() && 0 <= j < final(self)@.model.operations@[ready@[i] as int].inputs@.len()
                    ==> final(self)@.computed.contains_key(
                    #[trigger] final(self)@.model.operations@[#[trigger] ready@[i] as int].inputs@[j],
                ),
    {
        self.store_variable(id, value);
        self.check_ready_operations()
    }

    /// Whether every input of operation `op_id` has been computed.
    fn inputs_available(&self, op_id: usize) -> (available: bool)
        requires
            op_id < self@.model.operations@.len(),
        ensures
            available == self@.model.operations@[op_id as int].inputs_within(self@.computed.dom()),
    {
        let op: &Operation = &self.model.operations[op_id];
        let n: usize = op.inputs.len();
        let mut j: usize = 0;
        while j < n
            invariant
                n == op.inputs@.len(),
                j <= n,
                *op == self@.model.operations@[op_id as int],
                forall|k: int| 0 <= k < j ==> self@.computed.contains_key(#[trigger] op.inputs@[k]),
            decreases n - j,
        {
            if !self.computed_variables.contains_key(&op.inputs[j]) {
                return false;
            }
            j = j + 1;
        }
        true
    }

    /// Marks ready every operation whose inputs are all computed and that is
    /// neither completed nor already ready. Returns the ids of the operations
    /// newly marked ready, in increasing order: those to hand to the workers.
    pub fn check_ready_operations(&mut self) -> (ready: Vec<u32>)
        requires
            old(self)@.wf(),
        ensures
            final(self)@.wf(),
            final(self)@ == old(self)@.after_readiness_check(),
            ready@.to_set() == old(self)@.newly_ready(),
            strictly_increasing(ready@),
            forall|i: int| 0 <= i < ready@.len() ==> (#[trigger] ready@[i] as int) < final(self)@.model.operations@.len(),
            forall|i: int, j: int|
                0 <= i < ready@.len() && 0 <= j < final(self)@.model.operations@[ready@[i] as int].inputs@.len()
                    ==> final(self)@.computed.contains_key(
                    #[trigger] final(self)@.model.operations@[#[trigger] ready@[i] as int].inputs@[j],
                ),
    {
        let ghost old_v = self@;
        let n: usize = self.model.operations.len();
        let mut marked: Vec<u32> = Vec::new();
        let mut op_id: usize = 0;
        while op_id < n
            invariant
                n == old_v.model.operations@.len(),
                old_v == old(self)@,
                old_v.wf(),
                op_id <= n,
                self@.wf(),
                self@ == (RuntimeView { ready: self@.ready, ..old_v }),
                self@.ready == old_v.ready.union(marked@.to_set()),
                forall|x: u32| #[trigger] marked@.contains(x) <==> (x < op_id && old_v.eligible(x)),
                strictly_increasing(marked@),
                forall|i: int| 0 <= i < marked@.len() ==> marked@[i] < op_id,
            decreases n - op_id,
        {
            let id: u32 = op_id as u32;
            assert(id as int == op_id as int);
            if self.completed_operations.contains(&id) || self.ready_operations.contains(&id) {
                proof {
                    if marked@.contains(id) {
                        assert(id < op_id);
                    }
                    assert(!old_v.eligible(id));
                }
                op_id = op_id + 1;
                continue;
            }
            if self.inputs_available(op_id) {
                self.ready_operations.insert(id);
                proof {
                    assert(old_v.eligible(id));
                }
                let ghost prev = marked@;
                marked.push(id);
                proof {
                    assert(forall|x: u32| marked@.contains(x) <==> (prev.contains(x) || x == id)) by {
                        assert(marked@.last() == id);
                        assert forall|x: u32| prev.contains(x) implies marked@.contains(x) by {
                            let k = choose|k: int| 0 <= k < prev.len() && prev[k] == x;
                            assert(marked@[k] == x);
                        }
                    }
                    assert(self@.ready =~= old_v.ready.union(marked@.to_set()));
                    assert(old_v.eligible(id));
                }
                proof {
                    assert forall|x: u32| #[trigger] marked@.contains(x) <==> (x < op_id + 1 && old_v.eligible(x)) by {
                        if x != id {
                            assert(prev.contains(x) <==> (x < op_id && old_v.eligible(x)));
                        }
                    }
                }
            } else {
                assert(!old_v.eligible(id));
                assert forall|x: u32| #[trigger] marked@.contains(x) <==> (x < op_id + 1 && old_v.eligible(x)) by {
                    if x == id {
                        if marked@.contains(x) {
                            assert(x < op_id);
                        }
                    }
                }
            }
            op_id = op_id + 1;
        }
        proof {
            assert(marked@.to_set() =~= old_v.newly_ready());
            assert forall|i: int| 0 <= i < marked@.len() implies old_v.eligible(#[trigger] marked@[i]) by {
                assert(marked@.contains(marked@[i]));
            }
            assert forall|i: int, j: int|
                0 <= i < marked@.len() && 0 <= j < self@.model.operations@[marked@[i] as int].inputs@.len()
                implies self@.computed.contains_key(self@.model.operations@[marked@[i] as int].inputs@[j]) by {
                assert(old_v.eligible(marked@[i]));
                assert(self@.model.operations@[marked@[i] as int].inputs_within(self@.computed.dom()));
            }
            assert(self@.ready =~= old_v.after_readiness_check().ready);
        }
        marked
    }

    /// Whether every output variable of the model has been computed.
    pub fn all_outputs_computed(&self) -> (computed: bool)
        ensures
            computed == self@.outputs_computed(),
            computed <==> forall|j: int|
                0 <= j < self@.model.outputs@.len() ==> self@.computed.contains_key(#[trigger] self@.model.outputs@[j]),
    {
        let n: usize = self.model.outputs.len();
        let mut j: usize = 0;
        while j < n
            invariant
                n == self@.model.outputs@.len(),
                j <= n,
                forall|k: int| 0 <= k < j ==> self@.computed.contains_key(#[trigger] self@.model.outputs@[k]),
            decreases n - j,
        {
            if !self.computed_variables.contains_key(&self.model.outputs[j]) {
                return false;
            }
            j = j + 1;
        }
        true
    }

    /// Whether the runtime has found every output computed.
    pub fn is_done(&self) -> (done: bool)
        ensures
            done == self@.all_done,
    {
        self.all_done
    }

    /// The operations that are ready and not in progress; none of them has completed.
    pub fn available_operations(&self) -> (available: HashSet<u32>)
        requires
            self@.wf(),
        ensures
            available@ == self@.ready.difference(self@.in_progress),
            forall|op: u32| #[trigger] available@.contains(op) ==> !self@.in_progress.contains(op) && !self@.completed.contains(op),
    {
        let mut available: HashSet<u32> = HashSet::new();
        let ghost order = iteration_order(&self.ready_operations);
        for op_ref in it: self.ready_operations.iter()
            invariant
                order == iteration_order(&self.ready_operations),
                it.seq().len() == order.len(),
                forall|k: int| 0 <= k < it.seq().len() ==> *#[trigger] it.seq()[k] == order[k],
                order.to_set() == self@.ready,
                forall|x: u32| #[trigger] available@.contains(x) ==> self@.ready.contains(x) && !self@.in_progress.contains(x),
                forall|k: int| 0 <= k < it.index() && !self@.in_progress.contains(order[k]) ==> available@.contains(#[trigger] order[k]),
        {
            let op_id: u32 = *op_ref;
            proof {
                assert(order[it.index()] == op_id);
                assert(order.contains(op_id));
            }
            if !self.in_progress_operations.contains(&op_id) {
                available.insert(op_id);
            }
        }
        proof {
            assert forall|x: u32| self@.ready.difference(self@.in_progress).contains(x) implies available@.contains(x) by {
                assert(order.to_set().contains(x));
                let k = choose|k: int| 0 <= k < order.len() && order[k] == x;
                assert(available@.contains(order[k]));
            }
            assert(available@ =~= self@.ready.difference(self@.in_progress));
        }
        available
    }

    /// Takes `op`, chosen from the available operations, out of the ready
    /// operations and marks it in progress.
    pub fn claim_selected(&mut self, op: u32)
        requires
            old(self)@.wf(),
        ensures
            final(self)@ == old(self)@.after_claim(op),
            final(self)@.wf(),
    {
        self.ready_operations.remove(&op);
        self.in_progress_operations.insert(op);
        proof {
            assert forall|x: u32| #[trigger] self@.ready.contains(x) implies self@.model.runnable(x, self@.computed.dom()) by {
                assert(old(self)@.ready.contains(x));
            }
        }
    }

    /// Marks `op`, received from the work channel, in progress unless it
    /// already is; returns whether it was marked.
    pub fn claim_received(&mut self, op: u32) -> (claimed: bool)
        requires
            old(self)@.wf(),
        ensures
            claimed == !old(self)@.in_progress.contains(op),
            final(self)@ == old(self)@.after_receive(op),
            final(self)@.wf(),
    {
        if !self.in_progress_operations.contains(&op) {
            self.in_progress_operations.insert(op);
            true
        } else {
            assert(self@.in_progress.insert(op) =~= self@.in_progress);
            false
        }
    }

    /// Decides whether `op`, now in progress, is to be executed: an operation
    /// that has already completed is not, and leaves the operations in progress.
    pub fn begin_operation(&mut self, op: u32) -> (execute: bool)
        requires
            old(self)@.wf(),
        ensures
            execute == !old(self)@.completed.contains(op),
            final(self)@ == old(self)@.after_begin(op),
            final(self)@.wf(),
    {
        if self.completed_operations.contains(&op) {
            self.in_progress_operations.remove(&op);
            false
        } else {
            true
        }
    }

    /// Records that `op` has run: it becomes completed and leaves the operations
    /// in progress and the ready ones; the operations now runnable are marked
    /// ready; and the runtime is done once every output is computed. Returns the
    /// ids of the operations newly marked ready, in increasing order.
    pub fn complete_operation(&mut self, op: u32) -> (ready: Vec<u32>)
        requires
            old(self)@.wf(),
        ensures
            final(self)@.wf(),
            final(self)@ == old(self)@.after_completion(op),
            final(self)@.all_done <==> (old(self)@.all_done || forall|j: int|
                0 <= j < final(self)@.model.outputs@.len() ==> final(self)@.computed.contains_key(
                    #[trigger] final(self)@.model.outputs@[j],
                )),
            final(self)@.all_done ==> forall|j: int|
                0 <= j < final(self)@.model.outputs@.len() ==> final(self)@.computed.contains_key(
                    #[trigger] final(self)@.model.outputs@[j],
                ),
            ready@.to_set() == old(self)@.finished(op).newly_ready(),
            strictly_increasing(ready@),
            forall|i: int| 0 <= i < ready@.len() ==> (#[trigger] ready@[i] as int) < final(self)@.model.operations@.len(),
            forall|i: int, j: int|
                0 <= i < ready@.len() && 0 <= j < final(self)@.model.operations@[ready@[i] as int].inputs@.len()
                    ==> final(self)@.computed.contains_key(
                    #[trigger] final(self)@.model.operations@[#[trigger] ready@[i] as int].inputs@[j],
                ),
    {
        self.completed_operations.insert(op);
        self.in_progress_operations.remove(&op);
        self.ready_operations.remove(&op);
        proof {
            assert(self@ == old(self)@.finished(op));
            assert forall|x: u32| #[trigger] self@.ready.contains(x) implies self@.model.runnable(x, self@.computed.dom()) by {
                assert(old(self)@.ready.contains(x));
            }
            assert(self@.ready.disjoint(self@.completed));
        }
        let marked = self.check_ready_operations();
        if self.all_outputs_computed() {
            self.all_done = true;
        }
        marked
    }
}

} // verus!
