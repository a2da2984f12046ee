use std::collections::HashSet;
use vstd::prelude::*;
use vstd::std_specs::iter::IteratorSpec;
use crate::model::{Device, Model};

verus! {

broadcast use vstd::std_specs::hash::group_hash_axioms;

/// Some operation of `ops` runs on `device`.
pub open spec fn has_operation_on(ops: Set<u32>, model: Model, device: Device) -> bool {
    exists|op: u32| #[trigger] ops.contains(op) && model.device_of(op) == device
}

/// The device whose operation is chosen from `ops`: the one device that has
/// operations if only one has, and otherwise the host when it is the less
/// loaded (or equally loaded) device, the GPU when it is not.
pub open spec fn chosen_device(ops: Set<u32>, model: Model, host_less_loaded: bool) -> Device {
    if has_operation_on(ops, model, Device::Host) && (!has_operation_on(ops, model, Device::Cuda)
        || host_less_loaded) {
        Device::Host
    } else {
        Device::Cuda
    }
}

/// The order in which iterating over `ops` visits its elements.
pub open spec fn iteration_order(ops: &HashSet<u32>) -> Seq<u32> {
    vstd::std_specs::hash::into_iter_hash_keys(vstd::std_specs::hash::spec_hash_keys_iter(ops))
}

/// The operations of `order` that run on `device`, in that order.
pub open spec fn operations_on(order: Seq<u32>, model: Model, device: Device) -> Seq<u32> {
    order.filter(|op: u32| model.device_of(op) == device)
}

/// The first operation of `order` that runs on `device`, if there is one.
pub open spec fn first_on(order: Seq<u32>, model: Model, device: Device) -> Option<u32> {
    let on = operations_on(order, model, device);
    if on.len() > 0 {
        Some(on[0])
    } else {
        None
    }
}

/// Selects the next operation to run from `ready_operations`, which holds
/// operations that are neither in progress nor completed. The operations are
/// grouped by device, in the set's iteration order; when both devices have
/// operations, the first operation of the less loaded device is taken, where
/// `host_less_loaded` tells whether the host's load is at most the GPU's.
pub fn select_operation(ready_operations: &HashSet<u32>, model: &Model, host_less_loaded: bool) -> (selected: Option<u32>)
    requires
        forall|op: u32| #[trigger] ready_operations@.contains(op) ==> (op as int) < model.operations@.len(),
    ensures
        selected is None <==> ready_operations@.is_empty(),
        selected matches Some(op) ==> {
            &&& ready_operations@.contains(op)
            &&& model.device_of(op) == chosen_device(ready_operations@, *model, host_less_loaded)
        },
        selected == first_on(
            iteration_order(ready_operations),
            *model,
            chosen_device(ready_operations@, *model, host_less_loaded),
        ),
{
    let mut cpu_ops: Vec<u32> = Vec::new();
    let mut gpu_ops: Vec<u32> = Vec::new();
    let ghost order = iteration_order(ready_operations);
    proof {
        let keys = vstd::std_specs::hash::spec_hash_keys_iter(ready_operations).remaining();
        assert(keys.unref().to_set() == ready_operations@);
        assert forall|k: int| 0 <= k < keys.len() implies ready_operations@.contains(*#[trigger] keys[k]) by {
            assert(keys.unref()[k] == *keys[k]);
            assert(keys.unref().contains(*keys[k]));
        }
    }
    for op_ref in it: ready_operations.iter()
        invariant
            forall|op: u32| #[trigger] ready_operations@.contains(op) ==> (op as int) < model.operations@.len(),
            forall|k: int| 0 <= k < it.seq().len() ==> ready_operations@.contains(*#[trigger] it.seq()[k]),
            order == iteration_order(ready_operations),
            it.seq().len() == order.len(),
            forall|k: int| 0 <= k < it.seq().len() ==> *#[trigger] it.seq()[k] == order[k],
            0 <= it.index() <= order.len(),
            cpu_ops@ == operations_on(order.take(it.index()), *model, Device::Host),
            gpu_ops@ == operations_on(order.take(it.index()), *model, Device::Cuda),
            forall|i: int| 0 <= i < cpu_ops@.len() ==> ready_operations@.contains(#[trigger] cpu_ops@[i]) && model.device_of(cpu_ops@[i]) == Device::Host,
            forall|i: int| 0 <= i < gpu_ops@.len() ==> ready_operations@.contains(#[trigger] gpu_ops@[i]) && model.device_of(gpu_ops@[i]) == Device::Cuda,
            forall|k: int| 0 <= k < it.index() ==> {
                &&& (model.device_of(*#[trigger] it.seq()[k]) == Device::Host ==> cpu_ops@.contains(*it.seq()[k]))
                &&& (model.device_of(*it.seq()[k]) == Device::Cuda ==> gpu_ops@.contains(*it.seq()[k]))
            },
    {
        let op_id: u32 = *op_ref;
        let ghost prev_cpu = cpu_ops@;
        let ghost prev_gpu = gpu_ops@;
        let op = &model.operations[op_id as usize];
        match op.device {
            Device::Host => cpu_ops.push(op_id),
            Device::Cuda => gpu_ops.push(op_id),
        }
        proof {
            assert forall|x: u32| prev_cpu.contains(x) implies cpu_ops@.contains(x) by {
                let i = choose|i: int| 0 <= i < prev_cpu.len() && prev_cpu[i] == x;
                assert(cpu_ops@[i] == x);
            }
            assert forall|x: u32| prev_gpu.contains(x) implies gpu_ops@.contains(x) by {
                let i = choose|i: int| 0 <= i < prev_gpu.len() && prev_gpu[i] == x;
                assert(gpu_ops@[i] == x);
            }
            if model.device_of(op_id) == Device::Host {
                assert(cpu_ops@[cpu_ops@.len() - 1] == op_id);
            } else {
                assert(gpu_ops@[gpu_ops@.len() - 1] == op_id);
            }
            assert(0 <= it.index() < order.len());
            assert(op_id == *it.seq()[it.index()]);
            reveal_with_fuel(Seq::filter, 1);
            assert(order.take(it.index() + 1).drop_last() =~= order.take(it.index()));
            assert(order.take(it.index() + 1).last() == op_id);
        }
    }
    proof {
        assert(order.take(order.len() as int) =~= order);
    }
    if cpu_ops.len() == 0 && gpu_ops.len() == 0 {
        return None;
    }
    if cpu_ops.len() == 0 {
        return Some(gpu_ops[0]);
    }
    if gpu_ops.len() == 0 {
        return Some(cpu_ops[0]);
    }
    if host_less_loaded {
        Some(cpu_ops[0])
    } else {
        Some(gpu_ops[0])
    }
}

/// How many operations have completed on each device.
#[derive(Clone, Copy, Debug, PartialEq, Eq, Structural)]
pub struct DeviceCounts {
    pub host: u32,
    pub cuda: u32,
}

impl DeviceCounts {
    /// No operation has completed yet.
    pub fn new() -> (counts: Self)
        ensures
            counts == (DeviceCounts { host: 0, cuda: 0 }),
    {
        DeviceCounts { host: 0, cuda: 0 }
    }

    /// Whether one more operation can be counted on `device`.
    pub open spec fn can_record(&self, device: Device) -> bool {
        match device {
            Device::Host => self.host < u32::MAX,
            Device::Cuda => self.cuda < u32::MAX,
        }
    }

    /// Counts one more completed operation on `device`.
    pub fn record(&mut self, device: Device)
        requires
            old(self).can_record(device),
        ensures
            final(self).host == old(self).host + (if device is Host { 1int } else { 0int }),
            final(self).cuda == old(self).cuda + (if device is Cuda { 1int } else { 0int }),
    {
        match device {
            Device::Host => self.host = self.host + 1,
            Device::Cuda => self.cuda = self.cuda + 1,
        }
    }
}

} // verus!
