//! Runtime values and heap-allocated string objects.
//!
//! A number is carried as the 64-bit IEEE-754 binary64 bit pattern of its
//! value, so that the numeric semantics the virtual machine relies on (sign,
//! NaN-ness, negation, ordering, equality) are plain functions of that
//! pattern, stated and verified here over integers. The arithmetic that
//! produces new patterns (add, subtract, multiply, divide, literal parsing)
//! lives in [`crate::num`].
//!
//! A string value is a non-owning handle (an index) into the owning object
//! list; the list itself is rooted in the virtual machine, which gives a
//! deterministic O(n) teardown without tracing liveness.

use crate::table::fnv1a;
use crate::table::hash_str;
use vstd::prelude::*;
use vstd::string::StringSliceAdditionalSpecFns;
use vstd::utf8::encode_utf8;

verus! {

/// Sign bit of an IEEE-754 binary64 pattern.
pub const NUM_SIGN_MASK: u64 = 0x8000_0000_0000_0000;

/// Magnitude of positive infinity: exponent all ones, zero significand.
pub const NUM_INF_BITS: u64 = 0x7FF0_0000_0000_0000;

/// A tagged runtime value. Copying a value duplicates tag and payload; a
/// `String` payload is a handle into the object list, not the body itself.
#[derive(Debug, Clone, Copy, PartialEq)]
pub enum RuntimeValue {
    Nil,
    /// The IEEE-754 binary64 bit pattern of the number.
    Number(u64),
    Bool(bool),
    /// A handle into the owning object list.
    String(usize),
}

/// The kind tag of a heap object, to support future object variants.
#[derive(Debug, Clone, Copy, PartialEq, Eq)]
pub enum ObjTyp {
    String,
}

/// The header every heap object starts with: its kind tag.
#[derive(Debug, Clone, Copy, PartialEq, Eq)]
pub struct Obj {
    pub typ: ObjTyp,
}

/// A heap-allocated string: kind tag, cached 32-bit FNV-1a hash of the
/// body's bytes, and the immutable body. The hash is reserved for future
/// interning; nothing consults it yet.
pub struct StringObj {
    pub obj_typ: ObjTyp,
    pub hash: u32,
    pub contents: String,
}

impl StringObj {
    /// Allocate a fresh string object with the given body.
    pub fn new(contents: &str) -> (o: StringObj)
        ensures
            o.contents@ == contents@,
            o.obj_typ == ObjTyp::String,
            o.hash == fnv1a(contents.spec_bytes()),
    {
        let hash = hash_str(contents);
        StringObj { obj_typ: ObjTyp::String, hash, contents: contents.to_owned() }
    }

    /// Concatenation: a fresh, detached object whose body is
    /// `self.contents ++ other.contents`, hash recomputed. The originals are
    /// untouched; linking the result into an object list is the caller's
    /// responsibility.
    pub fn concat(&self, other: &StringObj) -> (o: StringObj)
        ensures
            o.contents@ == self.contents@ + other.contents@,
            o.obj_typ == ObjTyp::String,
            o.hash == fnv1a(encode_utf8(self.contents@ + other.contents@)),
    {
        let mut body = self.contents.clone();
        body.append(other.contents.as_str());
        let hash = hash_str(body.as_str());
        StringObj { obj_typ: ObjTyp::String, hash, contents: body }
    }

    /// The string body.
    pub fn as_str(&self) -> (r: &str)
        ensures
            r@ == self.contents@,
    {
        self.contents.as_str()
    }
}

/// Magnitude of a binary64 pattern: all bits but the sign.
pub open spec fn abs_bits(b: u64) -> u64 {
    if b >= NUM_SIGN_MASK {
        (b - NUM_SIGN_MASK) as u64
    } else {
        b
    }
}

/// NaN: exponent all ones with a nonzero significand.
pub open spec fn is_nan_bits(b: u64) -> bool {
    abs_bits(b) > NUM_INF_BITS
}

/// IEEE-754 negation flips the sign bit and nothing else (NaN included).
pub open spec fn negated_bits(b: u64) -> u64 {
    if b >= NUM_SIGN_MASK {
        (b - NUM_SIGN_MASK) as u64
    } else {
        (b + NUM_SIGN_MASK) as u64
    }
}

/// Ordering key of a non-NaN pattern: its magnitude, negated for negative
/// values. Both zeros map to 0, so `-0.0` and `+0.0` compare equal.
pub open spec fn key_bits(b: u64) -> int {
    if b >= NUM_SIGN_MASK {
        -((b - NUM_SIGN_MASK) as int)
    } else {
        b as int
    }
}

/// IEEE-754 `==` on binary64 patterns: false whenever either side is NaN;
/// `-0.0 == +0.0`; otherwise equal patterns only.
pub open spec fn eq_bits(a: u64, b: u64) -> bool {
    &&& !is_nan_bits(a)
    &&& !is_nan_bits(b)
    &&& (a == b || (abs_bits(a) == 0 && abs_bits(b) == 0))
}

/// IEEE-754 `<` on binary64 patterns: false whenever either side is NaN.
pub open spec fn lt_bits(a: u64, b: u64) -> bool {
    &&& !is_nan_bits(a)
    &&& !is_nan_bits(b)
    &&& key_bits(a) < key_bits(b)
}

/// IEEE-754 `>` on binary64 patterns.
pub open spec fn gt_bits(a: u64, b: u64) -> bool {
    lt_bits(b, a)
}

/// `nil` and `false` are falsy; every other value is truthy.
pub open spec fn falsy(v: RuntimeValue) -> bool {
    v == RuntimeValue::Nil || v == RuntimeValue::Bool(false)
}

/// NaN test on a binary64 pattern.
pub fn num_is_nan(b: u64) -> (r: bool)
    ensures
        r == is_nan_bits(b),
{
    let a = if b >= NUM_SIGN_MASK {
        b - NUM_SIGN_MASK
    } else {
        b
    };
    a > NUM_INF_BITS
}

/// Negation of a binary64 pattern: flip the sign bit.
pub fn num_negate(b: u64) -> (r: u64)
    ensures
        r == negated_bits(b),
{
    if b >= NUM_SIGN_MASK {
        b - NUM_SIGN_MASK
    } else {
        b + NUM_SIGN_MASK
    }
}

/// IEEE-754 `==` on binary64 patterns.
pub fn num_eq(a: u64, b: u64) -> (r: bool)
    ensures
        r == eq_bits(a, b),
{
    if num_is_nan(a) || num_is_nan(b) {
        false
    } else if a == b {
        true
    } else {
        let aa = if a >= NUM_SIGN_MASK {
            a - NUM_SIGN_MASK
        } else {
            a
        };
        let ab = if b >= NUM_SIGN_MASK {
            b - NUM_SIGN_MASK
        } else {
            b
        };
        aa == 0 && ab == 0
    }
}

/// IEEE-754 `<` on binary64 patterns.
pub fn num_lt(a: u64, b: u64) -> (r: bool)
    ensures
        r == lt_bits(a, b),
{
    if num_is_nan(a) || num_is_nan(b) {
        return false;
    }
    let a_neg = a >= NUM_SIGN_MASK;
    let b_neg = b >= NUM_SIGN_MASK;
    if a_neg && b_neg {
        b - NUM_SIGN_MASK < a - NUM_SIGN_MASK
    } else if a_neg {
        !(a == NUM_SIGN_MASK && b == 0)
    } else if b_neg {
        false
    } else {
        a < b
    }
}

/// IEEE-754 `>` on binary64 patterns.
pub fn num_gt(a: u64, b: u64) -> (r: bool)
    ensures
        r == gt_bits(a, b),
{
    num_lt(b, a)
}

/// Negation is an involution on bit patterns: `--n` restores `n` exactly,
/// so `---n` denotes the same pattern as `-n`.
pub proof fn lemma_negated_bits_involutive(b: u64)
    ensures
        negated_bits(negated_bits(b)) == b,
{
}

/// Negating a negation three times over denotes the same pattern as
/// negating once: `---n` and `-n` are the same number.
pub proof fn lemma_triple_negation(b: u64)
    ensures
        negated_bits(negated_bits(negated_bits(b))) == negated_bits(b),
{
    lemma_negated_bits_involutive(negated_bits(b));
}

/// Every non-NaN number equals itself under IEEE-754 `==`.
pub proof fn lemma_eq_bits_reflexive(b: u64)
    requires
        !is_nan_bits(b),
    ensures
        eq_bits(b, b),
{
}

/// No NaN equals itself under IEEE-754 `==`.
pub proof fn lemma_nan_bits_irreflexive(b: u64)
    requires
        is_nan_bits(b),
    ensures
        !eq_bits(b, b),
{
}

impl RuntimeValue {
    /// A short name for the value's type, for diagnostics.
    pub fn type_repr(&self) -> (r: &'static str)
        ensures
            r@ == type_repr_spec(*self),
    {
        match self {
            RuntimeValue::Nil => "",
            RuntimeValue::Bool(_) => "bool",
            RuntimeValue::Number(_) => "number",
            RuntimeValue::String(_) => "string",
        }
    }
}

pub open spec fn type_repr_spec(v: RuntimeValue) -> Seq<char> {
    match v {
        RuntimeValue::Nil => ""@,
        RuntimeValue::Bool(_) => "bool"@,
        RuntimeValue::Number(_) => "number"@,
        RuntimeValue::String(_) => "string"@,
    }
}

} // verus!
