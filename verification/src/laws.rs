use vstd::prelude::*;
use crate::scheduler::RuntimeView;
use crate::model::{Device, Model, Type, type_size};
use crate::load_balancer::{chosen_device, has_operation_on};
use crate::values::{is_integer_type, native_encoding, unsigned_image, le_bytes, lemma_le_bytes_len, lemma_native_order_involutive};

verus! {

/// A readiness check is complete: afterwards every operation whose inputs are
/// all computed and that has not completed is ready.
pub proof fn lemma_readiness_check_complete(v: RuntimeView, op: u32)
    requires
        v.wf(),
        v.model.runnable(op, v.computed.dom()),
        !v.completed.contains(op),
    ensures
        v.after_readiness_check().ready.contains(op),
{
    if !v.ready.contains(op) {
        assert(v.newly_ready().contains(op));
    }
}

/// A readiness check is sound: it marks ready only operations whose inputs
/// are all computed, and never a completed one.
pub proof fn lemma_readiness_check_sound(v: RuntimeView, op: u32)
    requires
        v.wf(),
        v.newly_ready().contains(op),
    ensures
        v.model.runnable(op, v.computed.dom()),
        !v.completed.contains(op),
{
}

/// A readiness check right after another one marks nothing, so it hands
/// nothing more to the workers.
pub proof fn lemma_readiness_check_idempotent(v: RuntimeView)
    requires
        v.wf(),
    ensures
        v.after_readiness_check().newly_ready() == Set::<u32>::empty(),
        v.after_readiness_check().after_readiness_check() == v.after_readiness_check(),
{
    let w = v.after_readiness_check();
    assert forall|op: u32| !w.newly_ready().contains(op) by {
        if w.eligible(op) {
            assert(v.newly_ready().contains(op));
        }
    }
    assert(w.newly_ready() =~= Set::<u32>::empty());
    assert(w.ready.union(w.newly_ready()) =~= w.ready);
}

/// Requesting a variable right after submitting it gives back the submitted
/// value, whatever the readiness check that the submission runs did.
pub proof fn lemma_request_after_submit(v: RuntimeView, id: u32, value: Vec<u8>)
    ensures
        v.with_value(id, value).after_readiness_check().computed.contains_key(id),
        v.with_value(id, value).after_readiness_check().computed[id] == value,
{
}

/// Computed variables are never lost: none of the runtime's steps removes one
/// or changes its value, except that submitting a variable again replaces it.
pub proof fn lemma_computed_variables_persist(v: RuntimeView, op: u32, id: u32, value: Vec<u8>, other: u32)
    requires
        v.computed.contains_key(other),
        other != id,
    ensures
        v.after_readiness_check().computed == v.computed,
        v.after_claim(op).computed == v.computed,
        v.after_completion(op).computed == v.computed,
        v.with_value(id, value).computed.contains_key(other),
        v.with_value(id, value).computed[other] == v.computed[other],
{
}

/// An operation taken from the available operations is no longer available:
/// no two workers select the same operation.
pub proof fn lemma_claimed_operation_unavailable(v: RuntimeView, op: u32)
    ensures
        !v.after_claim(op).ready.difference(v.after_claim(op).in_progress).contains(op),
        v.after_claim(op).in_progress.contains(op),
{
}

/// Once an operation has completed it is never marked ready again, so it is
/// never sent to the workers again.
pub proof fn lemma_completed_never_ready_again(v: RuntimeView, op: u32, other: u32)
    requires
        v.wf(),
    ensures
        !v.after_completion(op).newly_ready().contains(op),
        v.completed.contains(other) ==> !v.newly_ready().contains(other),
        v.after_completion(op).completed.contains(op),
{
}

/// The runtime is done only once every output is computed, and stays done.
pub proof fn lemma_done_only_when_outputs_computed(v: RuntimeView, op: u32)
    requires
        v.wf(),
    ensures
        v.after_completion(op).all_done ==> v.after_completion(op).outputs_computed(),
        v.all_done ==> v.after_completion(op).all_done,
        v.after_completion(op).outputs_computed() ==> v.after_completion(op).all_done,
{
}

/// The operations offered to the load balancer are neither in progress nor completed.
pub proof fn lemma_available_operations_are_idle(v: RuntimeView, op: u32)
    requires
        v.wf(),
        v.ready.difference(v.in_progress).contains(op),
    ensures
        !v.in_progress.contains(op),
        !v.completed.contains(op),
{
}

/// The selection goes to the less loaded device whenever that device has an
/// operation to offer, and to the other device only when it has none.
pub proof fn lemma_selection_prefers_less_loaded(ops: Set<u32>, model: Model, host_less_loaded: bool)
    ensures
        host_less_loaded && has_operation_on(ops, model, Device::Host) ==> chosen_device(ops, model, host_less_loaded) == Device::Host,
        !host_less_loaded && has_operation_on(ops, model, Device::Cuda) ==> chosen_device(ops, model, host_less_loaded) == Device::Cuda,
        chosen_device(ops, model, host_less_loaded) == Device::Host ==> has_operation_on(ops, model, Device::Host),
        chosen_device(ops, model, host_less_loaded) == Device::Cuda && has_operation_on(ops, model, Device::Host)
            ==> has_operation_on(ops, model, Device::Cuda),
{
}

/// An integer input is encoded in exactly as many bytes as its type occupies,
/// the size that submitted values of that type have.
pub proof fn lemma_encoded_input_has_type_size(ty: Type, v: int)
    requires
        is_integer_type(ty),
    ensures
        native_encoding(ty, v).len() == type_size(ty),
{
    lemma_le_bytes_len(unsigned_image(ty, v), type_size(ty));
    lemma_native_order_involutive(le_bytes(unsigned_image(ty, v), type_size(ty)));
}

/// A step taken on the runtime: storing a variable's value, a readiness
/// check, claiming an available operation, claiming an operation received from
/// the work channel, deciding whether to run an operation, and completing one.
pub enum Step {
    Store(u32, Vec<u8>),
    Check,
    Claim(u32),
    Receive(u32),
    Begin(u32),
    Complete(u32),
}

/// The state after `step`, as the runtime's methods state it.
pub open spec fn after_step(v: RuntimeView, step: Step) -> RuntimeView {
    match step {
        Step::Store(id, value) => v.with_value(id, value),
        Step::Check => v.after_readiness_check(),
        Step::Claim(op) => v.after_claim(op),
        Step::Receive(op) => v.after_receive(op),
        Step::Begin(op) => v.after_begin(op),
        Step::Complete(op) => v.after_completion(op),
    }
}

/// The state after the steps of `steps`, in order.
pub open spec fn after_steps(v: RuntimeView, steps: Seq<Step>) -> RuntimeView
    decreases steps.len(),
{
    if steps.len() == 0 {
        v
    } else {
        after_steps(after_step(v, steps[0]), steps.drop_first())
    }
}

/// `op` is held by the worker that claimed it: it is in progress and not completed.
pub open spec fn held(v: RuntimeView, op: u32) -> bool {
    v.in_progress.contains(op) && !v.completed.contains(op)
}

/// While an operation is held, no other claim of it takes effect: it is not
/// offered to the load balancer, and receiving it from the channel is refused.
pub proof fn lemma_held_operation_cannot_be_claimed(v: RuntimeView, op: u32)
    requires
        held(v, op),
    ensures
        !v.ready.difference(v.in_progress).contains(op),
        v.in_progress.contains(op),
{
}

/// An operation stays held through every step but its own completion.
pub proof fn lemma_held_until_completed(v: RuntimeView, steps: Seq<Step>, op: u32)
    requires
        held(v, op),
        forall|i: int| 0 <= i < steps.len() ==> steps[i] != Step::Complete(op),
    ensures
        held(after_steps(v, steps), op),
    decreases steps.len(),
{
    if steps.len() > 0 {
        let w = after_step(v, steps[0]);
        assert(held(w, op));
        assert forall|i: int| 0 <= i < steps.drop_first().len() implies steps.drop_first()[i] != Step::Complete(op) by {
            assert(steps.drop_first()[i] == steps[i + 1]);
        }
        lemma_held_until_completed(w, steps.drop_first(), op);
    }
}

/// A completed operation stays completed through every step, and a worker
/// that is handed it again decides not to run it.
pub proof fn lemma_completed_stays_completed(v: RuntimeView, steps: Seq<Step>, op: u32)
    requires
        v.completed.contains(op),
    ensures
        after_steps(v, steps).completed.contains(op),
        after_steps(v, steps).after_begin(op).in_progress == after_steps(v, steps).in_progress.remove(op),
    decreases steps.len(),
{
    if steps.len() > 0 {
        lemma_completed_stays_completed(after_step(v, steps[0]), steps.drop_first(), op);
    }
}

/// An operation whose function a worker starts (a claim of it took effect, and
/// it was not completed) is started at most once: until it completes it stays
/// held, so no other claim of it takes effect, and once it has completed every
/// worker decides not to run it.
pub proof fn lemma_started_at_most_once(v: RuntimeView, before: Seq<Step>, after: Seq<Step>, op: u32)
    requires
        held(v, op),
        forall|i: int| 0 <= i < before.len() ==> before[i] != Step::Complete(op),
    ensures
        held(after_steps(v, before), op),
        !after_steps(v, before).ready.difference(after_steps(v, before).in_progress).contains(op),
        after_steps(after_steps(v, before).after_completion(op), after).completed.contains(op),
{
    lemma_held_until_completed(v, before, op);
    lemma_completed_stays_completed(after_steps(v, before).after_completion(op), after, op);
}

/// Once an operation's inputs are all computed they stay computed: storing
/// values only adds, and no other step touches the values.
pub proof fn lemma_runnable_stays_runnable(v: RuntimeView, steps: Seq<Step>, op: u32)
    requires
        v.model.runnable(op, v.computed.dom()),
    ensures
        after_steps(v, steps).model.runnable(op, after_steps(v, steps).computed.dom()),
    decreases steps.len(),
{
    if steps.len() > 0 {
        let w = after_step(v, steps[0]);
        assert(w.model == v.model);
        let inputs = v.model.operations@[op as int].inputs@;
        assert forall|j: int| 0 <= j < inputs.len() implies w.computed.dom().contains(#[trigger] inputs[j]) by {
            assert(v.computed.dom().contains(inputs[j]));
        }
        lemma_runnable_stays_runnable(w, steps.drop_first(), op);
    }
}

/// An operation runs only once all its inputs are computed: every operation
/// handed to a worker, whether offered to the load balancer or returned by a
/// readiness check to be sent on the channel, is runnable then, and stays
/// runnable through every later step, up to the moment its function starts.
pub proof fn lemma_runs_only_with_inputs_computed(v: RuntimeView, op: u32, later: Seq<Step>)
    requires
        v.wf(),
        v.ready.difference(v.in_progress).contains(op) || v.newly_ready().contains(op),
    ensures
        after_steps(v, later).model.runnable(op, after_steps(v, later).computed.dom()),
{
    lemma_runnable_stays_runnable(v, later, op);
}

/// Every stored value, whether submitted by an operation or read from the
/// program's arguments, has the size of its variable's type.
pub proof fn lemma_stored_values_have_type_size(v: RuntimeView, id: u32)
    requires
        v.wf(),
        v.computed.contains_key(id),
    ensures
        (id as int) < v.model.variables@.len(),
        v.computed[id]@.len() == type_size(v.model.variables@[id as int].ty),
{
}

/// An operation is ready only with every one of its inputs computed: after a
/// readiness check, each ready operation exists, and the variable at every
/// index of its input list has a value.
pub proof fn lemma_ready_operations_have_every_input(v: RuntimeView, op: u32, j: int)
    requires
        v.wf(),
        v.after_readiness_check().ready.contains(op),
    ensures
        (op as int) < v.model.operations@.len(),
        0 <= j < v.model.operations@[op as int].inputs@.len() ==> v.computed.contains_key(
            v.model.operations@[op as int].inputs@[j],
        ),
{
    if !v.ready.contains(op) {
        assert(v.newly_ready().contains(op));
    }
    assert(v.model.runnable(op, v.computed.dom()));
    if 0 <= j < v.model.operations@[op as int].inputs@.len() {
        assert(v.computed.dom().contains(v.model.operations@[op as int].inputs@[j]));
    }
}

/// The runtime is done only when the variable at every index of the model's
/// output list has a value; completing an operation makes it done exactly when
/// it already was or every output now has a value.
pub proof fn lemma_done_means_every_output_computed(v: RuntimeView, op: u32, j: int)
    requires
        v.wf(),
        0 <= j < v.model.outputs@.len(),
    ensures
        v.all_done ==> v.computed.contains_key(v.model.outputs@[j]),
        v.after_completion(op).all_done <==> (v.all_done || forall|k: int|
            0 <= k < v.model.outputs@.len() ==> v.computed.contains_key(#[trigger] v.model.outputs@[k])),
{
}

} // verus!
