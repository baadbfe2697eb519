//! Values of the host language as the engine sees them: a value is
//! either a mutable ("complex") heap value or a frozen one, tagged with
//! its type; a `ValueOfComplex` is a value validated at construction to
//! carry an expected type, so unpacking it never fails.

use vstd::prelude::*;

verus! {

/// A host-language value: frozen or mutable, a type tag, and its
/// payload bytes.
#[derive(Clone, PartialEq, Eq, Debug)]
pub struct Value {
    pub frozen: bool,
    pub type_tag: u64,
    pub payload: Vec<u8>,
}

/// The two shapes a validated value unpacks to.
pub enum UnpackedValue {
    Mutable(Value),
    Frozen(Value),
}

/// A value which is either a complex mutable value or a frozen value
/// of one expected type.
pub struct ValueOfComplex {
    pub value: Value,
    pub type_tag: u64,
}

impl ValueOfComplex {
    /// Validated at construction: the held value carries the expected
    /// type tag.
    pub open spec fn wf(self) -> bool {
        self.value.type_tag == self.type_tag
    }

    /// Validate a value against the expected type tag: accepted, with
    /// the value held unchanged, exactly when the tags agree.
    pub fn unpack_value(value: Value, type_tag: u64) -> (r: Option<ValueOfComplex>)
        ensures
            value.type_tag == type_tag <==> r is Some,
            r matches Some(vc) ==> vc.wf() && vc.value == value && vc.type_tag == type_tag,
    {
        if value.type_tag == type_tag {
            Some(ValueOfComplex { value, type_tag })
        } else {
            None
        }
    }

    /// Get the value back.
    pub fn to_value(self) -> (r: Value)
        ensures
            r == self.value,
    {
        self.value
    }

    /// Unpack the mutable or frozen value; validation at construction
    /// makes this total.
    pub fn unpack(self) -> (r: UnpackedValue)
        requires
            self.wf(),
        ensures
            self.value.frozen ==> (r matches UnpackedValue::Frozen(v) && v == self.value),
            !self.value.frozen ==> (r matches UnpackedValue::Mutable(v) && v == self.value),
    {
        if self.value.frozen {
            UnpackedValue::Frozen(self.value)
        } else {
            UnpackedValue::Mutable(self.value)
        }
    }
}

} // verus!
