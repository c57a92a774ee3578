//! Virtual CPU lifecycle.

use vstd::prelude::*;
use crate::obs::Obs;
use crate::obs::trace::Event;

verus! {

/// Lifecycle state of a virtual CPU.
#[derive(Debug, Clone, Copy, PartialEq, Eq, Structural)]
pub enum VcpuState {
    Created,
    Running,
    Stopped,
}

/// A virtual CPU.
#[derive(Debug)]
pub struct Vcpu {
    pub id: u32,
    pub state: VcpuState,
}

impl Vcpu {
    /// A new virtual CPU in the `Created` state.
    pub fn new(id: u32) -> (v: Vcpu)
        ensures
            v.id == id,
            v.state == VcpuState::Created,
    {
        Vcpu { id, state: VcpuState::Created }
    }

    /// Move to `Running`, count the start and trace it.
    pub fn start(&mut self, obs: &mut Obs)
        requires
            old(obs).wf(),
            old(obs).room(1),
        ensures
            final(self).id == old(self).id,
            final(self).state == VcpuState::Running,
            final(obs).wf(),
            final(obs).metrics.vcpu_started.value
                == vstd::wrapping::u64_specs::wrapping_add(old(obs).metrics.vcpu_started.value, 1),
            final(obs).trace.hist@ == old(obs).trace.hist@.push(Event::VmStart(old(self).id as u64)),
            final(obs).audit == old(obs).audit,
    {
        self.state = VcpuState::Running;
        obs.metrics.vcpu_started.inc();
        obs.trace.record(Event::VmStart(self.id as u64));
    }

    /// Move to `Stopped`, count the stop and trace it.
    pub fn stop(&mut self, obs: &mut Obs)
        requires
            old(obs).wf(),
            old(obs).room(1),
        ensures
            final(self).id == old(self).id,
            final(self).state == VcpuState::Stopped,
            final(obs).wf(),
            final(obs).metrics.vcpu_stopped.value
                == vstd::wrapping::u64_specs::wrapping_add(old(obs).metrics.vcpu_stopped.value, 1),
            final(obs).trace.hist@ == old(obs).trace.hist@.push(Event::VmStop(old(self).id as u64)),
            final(obs).audit == old(obs).audit,
    {
        self.state = VcpuState::Stopped;
        obs.metrics.vcpu_stopped.inc();
        obs.trace.record(Event::VmStop(self.id as u64));
    }
}

} // verus!
