//! The sub-calls of the batch: each carries a target address, an
//! allow-failure flag, an optional native-currency value, and a payload.
//!
//! A batch is an ordered sequence of [`Call3`]; insertion order is the
//! on-chain execution order.

use vstd::prelude::*;
use crate::address::Address;
use crate::address::clone_bytes;
use crate::address::bytes_eq;
use crate::uint256::U256;

verus! {

/// The mathematical content of a [`Call3`]: the target bytes, the flag, the
/// numeric value (an absent value counts as zero), and the payload bytes.
pub ghost struct CallView {
    /// The 20 target bytes.
    pub target: Seq<u8>,
    /// Whether this call may fail without aborting the batch.
    pub allow_failure: bool,
    /// The attached native-currency amount.
    pub value: nat,
    /// The payload bytes.
    pub data: Seq<u8>,
}

/// One sub-operation to run during the flashloan window.
#[derive(Debug)]
pub struct Call3 {
    /// The account or contract to invoke.
    pub target: Address,
    /// If false, failure of this call aborts the entire batch.
    pub allow_failure: bool,
    /// The native-currency amount attached to the call; `None` counts as zero.
    pub value: Option<U256>,
    /// The ABI-encoded payload.
    pub data: Vec<u8>,
}

impl View for Call3 {
    type V = CallView;

    open spec fn view(&self) -> CallView {
        CallView {
            target: self.target@,
            allow_failure: self.allow_failure,
            value: match self.value {
                Some(v) => v.as_nat(),
                None => 0,
            },
            data: self.data@,
        }
    }
}

impl DeepView for Call3 {
    type V = CallView;

    open spec fn deep_view(&self) -> CallView {
        self@
    }
}

impl Call3 {
    /// The target is a well-formed address.
    pub open spec fn wf(&self) -> bool {
        self.target.wf()
    }
}

impl Clone for Call3 {
    /// The copy is deep: later changes to either value leave the other alone.
    fn clone(&self) -> (r: Call3)
        ensures
            r@ == self@,
            r.value == self.value,
    {
        Call3 {
            target: self.target.clone(),
            allow_failure: self.allow_failure,
            value: self.value,
            data: clone_bytes(&self.data),
        }
    }
}

impl PartialEq for Call3 {
    fn eq(&self, other: &Call3) -> (r: bool) {
        self.target == other.target && self.allow_failure == other.allow_failure && (match (
            &self.value,
            &other.value,
        ) {
            (Some(a), Some(b)) => a == b,
            (None, None) => true,
            _ => false,
        }) && bytes_eq(&self.data, &other.data)
    }
}

impl Eq for Call3 {

}

impl vstd::std_specs::cmp::PartialEqSpecImpl for Call3 {
    open spec fn obeys_eq_spec() -> bool {
        true
    }

    open spec fn eq_spec(&self, other: &Call3) -> bool {
        self.target@ == other.target@ && self.allow_failure == other.allow_failure
            && self.value == other.value && self.data@ == other.data@
    }
}

/// Copies a batch of calls; the copy is deep, element by element.
pub fn clone_calls(calls: &Vec<Call3>) -> (r: Vec<Call3>)
    ensures
        r.deep_view() == calls.deep_view(),
        r@.len() == calls@.len(),
{
    let mut r: Vec<Call3> = Vec::new();
    let mut i: usize = 0;
    while i < calls.len()
        invariant
            i <= calls.len(),
            r@.len() == i,
            forall|j: int| 0 <= j < i ==> r@[j]@ == calls@[j]@,
        decreases calls.len() - i,
    {
        r.push(calls[i].clone());
        i = i + 1;
    }
    proof {
        assert(r.deep_view() =~= calls.deep_view());
    }
    r
}

} // verus!
