//! Start-up decisions: which capture interface appeared when monitor mode
//! was enabled, and the bounded retry policy for bringing up the interface
//! and the GPS device.
use vstd::prelude::*;

verus! {

/// The names of `changed` that are not among `original`, in order.
pub open spec fn new_names(original: Seq<Seq<char>>, changed: Seq<Seq<char>>) -> Seq<Seq<char>>
    decreases changed.len(),
{
    if changed.len() == 0 {
        Seq::empty()
    } else {
        let rest = new_names(original, changed.drop_last());
        if original.contains(changed.last()) {
            rest
        } else {
            rest.push(changed.last())
        }
    }
}

pub open spec fn names_view(v: Seq<String>) -> Seq<Seq<char>> {
    v.map_values(|s: String| s@)
}

fn contains_name(names: &Vec<String>, name: &String) -> (r: bool)
    ensures
        r == names_view(names@).contains(name@),
{
    let mut i: usize = 0;
    while i < names.len()
        invariant
            i <= names@.len(),
            forall|k: int| 0 <= k < i ==> names@[k]@ != name@,
        decreases names@.len() - i,
    {
        if names[i] == *name {
            assert(names_view(names@)[i as int] == name@);
            return true;
        }
        i += 1;
    }
    proof {
        if names_view(names@).contains(name@) {
            let k = choose|k: int| 0 <= k < names_view(names@).len() && names_view(names@)[k] == name@;
            assert(names@[k]@ == name@);
        }
    }
    false
}

/// The interface names listed after enabling monitor mode that were not
/// listed before: the interface that monitor mode brought up.
pub fn get_changed_interfaces(original_devices: &Vec<String>, changed_devices: &Vec<String>) -> (r:
    Vec<String>)
    ensures
        names_view(r@) == new_names(names_view(original_devices@), names_view(changed_devices@)),
{
    let mut out: Vec<String> = Vec::new();
    let mut i: usize = 0;
    while i < changed_devices.len()
        invariant
            i <= changed_devices@.len(),
            names_view(out@) == new_names(
                names_view(original_devices@),
                names_view(changed_devices@.take(i as int)),
            ),
        decreases changed_devices@.len() - i,
    {
        proof {
            let c = names_view(changed_devices@.take(i + 1));
            assert(c.drop_last() =~= names_view(changed_devices@.take(i as int)));
            assert(c.last() == changed_devices@[i as int]@);
        }
        if !contains_name(original_devices, &changed_devices[i]) {
            let ghost before = out@;
            out.push(changed_devices[i].clone());
            assert(names_view(out@) =~= names_view(before).push(changed_devices@[i as int]@));
        }
        i += 1;
    }
    assert(changed_devices@.take(i as int) =~= changed_devices@);
    out
}

/// How many times to try and how long to wait between tries.
#[derive(Debug, Clone, Copy, PartialEq, Eq, Structural)]
pub struct RetryPolicy {
    pub max_attempts: u32,
    pub delay_ms: u64,
}

/// What a bounded retry loop does next.
#[derive(Debug, Clone, Copy, PartialEq, Eq, Structural)]
pub enum RetryStep {
    /// Make the first attempt now.
    Attempt,
    /// Wait this many milliseconds (and undo the last attempt), then try again.
    RetryAfter(u64),
    /// Every attempt failed: report the failure.
    GiveUp,
}

/// The step after `attempts` failed attempts.
pub open spec fn spec_next_step(policy: RetryPolicy, attempts: u32) -> RetryStep {
    if attempts == 0 {
        if policy.max_attempts == 0 {
            RetryStep::GiveUp
        } else {
            RetryStep::Attempt
        }
    } else if attempts >= policy.max_attempts {
        RetryStep::GiveUp
    } else {
        RetryStep::RetryAfter(policy.delay_ms)
    }
}

/// A bounded retry loop: the attempts made so far under a policy.
#[derive(Debug, Clone, Copy)]
pub struct Retry {
    pub policy: RetryPolicy,
    pub attempts: u32,
}

impl Retry {
    /// No attempt made yet.
    pub fn new(policy: RetryPolicy) -> (r: Retry)
        ensures
            r.policy == policy,
            r.attempts == 0,
    {
        Retry { policy, attempts: 0 }
    }

    /// What to do now that `self.attempts` attempts have failed.
    pub fn next_step(&self) -> (r: RetryStep)
        ensures
            r == spec_next_step(self.policy, self.attempts),
    {
        if self.attempts == 0 {
            if self.policy.max_attempts == 0 {
                RetryStep::GiveUp
            } else {
                RetryStep::Attempt
            }
        } else if self.attempts >= self.policy.max_attempts {
            RetryStep::GiveUp
        } else {
            RetryStep::RetryAfter(self.policy.delay_ms)
        }
    }

    /// Records that one more attempt failed.
    pub fn record_failure(&mut self)
        requires
            old(self).attempts < old(self).policy.max_attempts,
        ensures
            final(self).policy == old(self).policy,
            final(self).attempts == old(self).attempts + 1,
    {
        self.attempts = self.attempts + 1;
    }
}

} // verus!
