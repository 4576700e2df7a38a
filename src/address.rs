use vstd::prelude::*;
use vstd::string::StringSliceAdditionalSpecFns;

verus! {

/// An account or contract address, held as the bytes of its textual form.
#[derive(Clone, Debug)]
pub struct Address {
    bytes: Vec<u8>,
}

impl View for Address {
    type V = Seq<u8>;

    closed spec fn view(&self) -> Seq<u8> {
        self.bytes@
    }
}

impl Address {
    pub fn from_bytes(bytes: Vec<u8>) -> (r: Address)
        ensures
            r@ == bytes@,
    {
        Address { bytes }
    }

    pub fn from_str(s: &str) -> (r: Address)
        ensures
            r@ == s.spec_bytes(),
    {
        let b: &[u8] = s.as_bytes();
        let mut bytes: Vec<u8> = Vec::new();
        for i in 0..b.len()
            invariant
                b@ == s.spec_bytes(),
                bytes@ == b@.take(i as int),
        {
            bytes.push(b[i]);
        }
        assert(bytes@ =~= b@);
        Address { bytes }
    }

    pub fn as_bytes(&self) -> (r: &[u8])
        ensures
            r@ == self@,
    {
        self.bytes.as_slice()
    }

    /// Compares two addresses byte by byte.
    pub fn same_as(&self, other: &Address) -> (r: bool)
        ensures
            r == (self@ == other@),
    {
        let n = self.bytes.len();
        if n != other.bytes.len() {
            return false;
        }
        for i in 0..n
            invariant
                n == self.bytes@.len(),
                n == other.bytes@.len(),
                self.bytes@.take(i as int) == other.bytes@.take(i as int),
        {
            if self.bytes[i] != other.bytes[i] {
                assert(self.bytes@[i as int] != other.bytes@[i as int]);
                return false;
            }
            assert(self.bytes@.take(i + 1) =~= self.bytes@.take(i as int).push(self.bytes@[i as int]));
            assert(other.bytes@.take(i + 1) =~= other.bytes@.take(i as int).push(other.bytes@[i as int]));
        }
        assert(self.bytes@ =~= self.bytes@.take(n as int));
        assert(other.bytes@ =~= other.bytes@.take(n as int));
        true
    }
}

impl PartialEq for Address {
    fn eq(&self, other: &Address) -> (r: bool) {
        self.same_as(other)
    }
}

impl vstd::std_specs::cmp::PartialEqSpecImpl for Address {
    open spec fn obeys_eq_spec() -> bool {
        true
    }

    open spec fn eq_spec(&self, other: &Address) -> bool {
        self@ == other@
    }
}

impl Eq for Address {
}

} // verus!
