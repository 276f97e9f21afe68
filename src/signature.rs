use vstd::prelude::*;

verus! {

/// Type of a value handled by WebAssembly code.
#[derive(Clone, Copy, Debug, PartialEq, Eq, Structural)]
pub enum ValueType {
    I32,
    I64,
    F32,
    F64,
}

/// A value handled by WebAssembly code.
///
/// Floating-point values are carried by their IEEE 754 bit pattern.
#[derive(Clone, Copy, Debug, PartialEq, Eq, Structural)]
pub enum WasmValue {
    I32(i32),
    I64(i64),
    F32(u32),
    F64(u64),
}

impl WasmValue {
    pub open spec fn spec_value_type(&self) -> ValueType {
        match self {
            WasmValue::I32(_) => ValueType::I32,
            WasmValue::I64(_) => ValueType::I64,
            WasmValue::F32(_) => ValueType::F32,
            WasmValue::F64(_) => ValueType::F64,
        }
    }

    /// Returns the type of this value.
    #[verifier::when_used_as_spec(spec_value_type)]
    pub fn value_type(&self) -> (r: ValueType)
        ensures
            r == self.spec_value_type(),
    {
        match self {
            WasmValue::I32(_) => ValueType::I32,
            WasmValue::I64(_) => ValueType::I64,
            WasmValue::F32(_) => ValueType::F32,
            WasmValue::F64(_) => ValueType::F64,
        }
    }
}

/// The list of result types that an optional result type stands for.
pub open spec fn result_types(ret: Option<ValueType>) -> Seq<ValueType> {
    match ret {
        Some(t) => seq![t],
        None => Seq::empty(),
    }
}

/// The type of an optional value.
pub open spec fn type_of_optional(value: Option<WasmValue>) -> Option<ValueType> {
    match value {
        Some(v) => Some(v.spec_value_type()),
        None => None,
    }
}

/// `value` can be handed back to code that expects results of the types `expected`.
pub open spec fn value_fits(expected: Seq<ValueType>, value: Option<WasmValue>) -> bool {
    expected == result_types(type_of_optional(value))
}

/// Parameter and result types of a function, as the engine reports them for an import.
pub struct EngineSignature {
    pub params: Vec<ValueType>,
    pub results: Vec<ValueType>,
}

/// Signature of a host function: its parameter types and its optional result type.
pub struct Signature {
    params: Vec<ValueType>,
    ret: Option<ValueType>,
}

/// A signature matches an engine signature when the parameters agree pointwise and the results
/// are exactly the optional result.
pub open spec fn signature_matches(
    sig: (Seq<ValueType>, Option<ValueType>),
    params: Seq<ValueType>,
    results: Seq<ValueType>,
) -> bool {
    sig.0 == params && result_types(sig.1) == results
}

impl View for Signature {
    type V = (Seq<ValueType>, Option<ValueType>);

    closed spec fn view(&self) -> Self::V {
        (self.params@, self.ret)
    }
}

/// Returns true if the two lists of types are equal.
pub fn same_types(a: &Vec<ValueType>, b: &Vec<ValueType>) -> (r: bool)
    ensures
        r == (a@ == b@),
{
    if a.len() != b.len() {
        return false;
    }
    let mut i: usize = 0;
    while i < a.len()
        invariant
            a.len() == b.len(),
            0 <= i <= a.len(),
            forall|j: int| 0 <= j < i ==> a@[j] == b@[j],
        decreases a.len() - i,
    {
        if a[i] != b[i] {
            return false;
        }
        i = i + 1;
    }
    assert(a@ =~= b@);
    true
}

/// Returns true if `value` can be handed back to code that expects results of the types
/// `expected`.
pub fn fits(expected: &Vec<ValueType>, value: &Option<WasmValue>) -> (r: bool)
    ensures
        r == value_fits(expected@, *value),
{
    match value {
        None => {
            assert(result_types(type_of_optional(*value)) =~= Seq::<ValueType>::empty());
            assert(expected.len() == 0 ==> expected@ =~= Seq::<ValueType>::empty());
            expected.len() == 0
        },
        Some(v) => {
            if expected.len() != 1 {
                assert(expected@ != result_types(type_of_optional(*value)));
                false
            } else {
                let r = expected[0] == v.value_type();
                assert(r ==> expected@ =~= result_types(type_of_optional(*value)));
                r
            }
        },
    }
}

/// Returns the type of an optional value.
pub fn optional_type(value: &Option<WasmValue>) -> (r: Option<ValueType>)
    ensures
        r == type_of_optional(*value),
{
    match value {
        Some(v) => Some(v.value_type()),
        None => None,
    }
}

/// Returns a copy of a list of types.
pub fn copy_types(types: &Vec<ValueType>) -> (r: Vec<ValueType>)
    ensures
        r@ == types@,
{
    let mut r: Vec<ValueType> = Vec::new();
    let mut i: usize = 0;
    while i < types.len()
        invariant
            0 <= i <= types.len(),
            r@ == types@.subrange(0, i as int),
        decreases types.len() - i,
    {
        r.push(types[i]);
        i = i + 1;
    }
    assert(r@ =~= types@);
    r
}

impl Signature {
    /// Builds a signature from its parameter types and optional result type.
    pub fn new(params: Vec<ValueType>, ret: Option<ValueType>) -> (r: Signature)
        ensures
            r@ == (params@, ret),
    {
        Signature { params, ret }
    }

    /// Returns the optional result type.
    pub fn return_type(&self) -> (r: Option<ValueType>)
        ensures
            r == self@.1,
    {
        self.ret
    }

    /// Returns true if this signature is the one that the engine reports.
    pub fn matches_engine(&self, sig: &EngineSignature) -> (r: bool)
        ensures
            r == signature_matches(self@, sig.params@, sig.results@),
    {
        if !same_types(&self.params, &sig.params) {
            return false;
        }
        match self.ret {
            None => {
                assert(result_types(self.ret) =~= Seq::<ValueType>::empty());
                assert(sig.results.len() == 0 ==> sig.results@ =~= Seq::<ValueType>::empty());
                sig.results.len() == 0
            },
            Some(t) => {
                if sig.results.len() != 1 {
                    false
                } else {
                    let r = sig.results[0] == t;
                    assert(r ==> sig.results@ =~= result_types(self.ret));
                    r
                }
            },
        }
    }
}

} // verus!
