//! Account and contract addresses: fixed-width 20-byte identifiers.

use vstd::prelude::*;

verus! {

/// The number of bytes of an address.
pub open spec fn address_len() -> nat {
    20
}

/// The bytes of the well-known fallback flash lender, used by deployment when
/// no lender is configured anywhere.
pub open spec fn default_lender_bytes() -> Seq<u8> {
    seq![
        0x1eu8, 0xb4u8, 0xcfu8, 0x3au8, 0x94u8, 0x8eu8, 0x7du8, 0x72u8, 0xa1u8, 0x98u8,
        0xfeu8, 0x07u8, 0x3cu8, 0xcbu8, 0x8cu8, 0x7au8, 0x94u8, 0x8cu8, 0xd8u8, 0x53u8,
    ]
}

/// Copies a byte vector.
pub(crate) fn clone_bytes(v: &Vec<u8>) -> (r: Vec<u8>)
    ensures
        r@ == v@,
{
    let mut r: Vec<u8> = Vec::new();
    let mut i: usize = 0;
    while i < v.len()
        invariant
            i <= v.len(),
            r@ == v@.subrange(0, i as int),
        decreases v.len() - i,
    {
        r.push(v[i]);
        i = i + 1;
    }
    proof {
        assert(r@ == v@.subrange(0, v@.len() as int));
        assert(v@.subrange(0, v@.len() as int) =~= v@);
    }
    r
}

/// Whether two byte slices hold the same bytes.
pub(crate) fn bytes_eq(a: &Vec<u8>, b: &Vec<u8>) -> (r: bool)
    ensures
        r == (a@ =~= b@),
{
    if a.len() != b.len() {
        return false;
    }
    let mut i: usize = 0;
    while i < a.len()
        invariant
            a@.len() == b@.len(),
            i <= a.len(),
            forall|j: int| 0 <= j < i ==> a@[j] == b@[j],
        decreases a.len() - i,
    {
        if a[i] != b[i] {
            return false;
        }
        i = i + 1;
    }
    true
}

/// An account or contract address: exactly 20 bytes.
#[derive(Debug)]
pub struct Address {
    bytes: Vec<u8>,
}

impl View for Address {
    type V = Seq<u8>;

    closed spec fn view(&self) -> Seq<u8> {
        self.bytes@
    }
}

impl Address {
    /// The address is exactly 20 bytes wide.
    pub open spec fn wf(&self) -> bool {
        self@.len() == address_len()
    }

    /// Builds an address from its 20 bytes; `None` for any other width.
    pub fn from_bytes(bytes: Vec<u8>) -> (r: Option<Address>)
        ensures
            match r {
                Some(a) => bytes@.len() == address_len() && a@ == bytes@ && a.wf(),
                None => bytes@.len() != address_len(),
            },
    {
        if bytes.len() == 20 {
            Some(Address { bytes })
        } else {
            None
        }
    }

    /// The bytes of the address, most significant first.
    pub fn as_bytes(&self) -> (r: &Vec<u8>)
        ensures
            r@ == self@,
    {
        &self.bytes
    }

    /// The well-known fallback flash lender.
    pub fn default_lender() -> (r: Address)
        ensures
            r@ == default_lender_bytes(),
            r.wf(),
    {
        let bytes: Vec<u8> = vec![
            0x1e, 0xb4, 0xcf, 0x3a, 0x94, 0x8e, 0x7d, 0x72, 0xa1, 0x98,
            0xfe, 0x07, 0x3c, 0xcb, 0x8c, 0x7a, 0x94, 0x8c, 0xd8, 0x53,
        ];
        proof {
            assert(bytes@ =~= default_lender_bytes());
        }
        Address { bytes }
    }
}

impl Clone for Address {
    /// The copy holds the same bytes.
    fn clone(&self) -> (r: Address)
        ensures
            r@ == self@,
    {
        Address { bytes: clone_bytes(&self.bytes) }
    }
}

impl PartialEq for Address {
    fn eq(&self, other: &Address) -> (r: bool) {
        bytes_eq(&self.bytes, &other.bytes)
    }
}

impl Eq for Address {

}

impl vstd::std_specs::cmp::PartialEqSpecImpl for Address {
    open spec fn obeys_eq_spec() -> bool {
        true
    }

    open spec fn eq_spec(&self, other: &Address) -> bool {
        self@ == other@
    }
}

} // verus!
