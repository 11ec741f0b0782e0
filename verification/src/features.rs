use vstd::prelude::*;
use crate::matmul::{Elem, FloatKind, IntKind, UIntKind};

verus! {

/// The number by which Vulkan names the scope of a subgroup.
pub const SCOPE_SUBGROUP: i32 = 3;

/// How a kernel is run with respect to bounds checks.
#[derive(Debug, Clone, Copy, PartialEq, Eq, Structural)]
pub enum ExecutionMode {
    /// The kernel checks its own accesses.
    Checked,
    /// The kernel leaves the checks out.
    Unchecked,
}

/// One shape of cooperative matrix multiplication as a Vulkan device
/// reports it: the sizes, the component types by their Vulkan numbers,
/// whether the accumulation saturates, and the scope by its number.
#[derive(Debug, Clone, Copy, PartialEq, Eq, Structural)]
pub struct CooperativeMatrixProperties {
    pub m_size: u32,
    pub n_size: u32,
    pub k_size: u32,
    pub a_type: i32,
    pub b_type: i32,
    pub c_type: i32,
    pub result_type: i32,
    pub saturating_accumulation: u32,
    pub scope: i32,
}

/// Something that kernels may rely on when the device has it.
#[derive(Debug, Clone, Copy, PartialEq, Eq, Structural)]
pub enum Feature {
    /// Elements of this type.
    Type(Elem),
    /// Cooperative matrix multiplication of this shape.
    Cmma { a: Elem, b: Elem, c: Elem, m: u8, k: u8, n: u8 },
}

/// The element type that a Vulkan component type number stands for.
pub open spec fn component_elem(raw: i32) -> Option<Elem> {
    if raw == 0 {
        Some(Elem::Float(FloatKind::F16))
    } else if raw == 1 {
        Some(Elem::Float(FloatKind::F32))
    } else if raw == 2 {
        Some(Elem::Float(FloatKind::F64))
    } else if raw == 3 {
        Some(Elem::Int(IntKind::I8))
    } else if raw == 4 {
        Some(Elem::Int(IntKind::I16))
    } else if raw == 5 {
        Some(Elem::Int(IntKind::I32))
    } else if raw == 6 {
        Some(Elem::Int(IntKind::I64))
    } else if raw == 7 {
        Some(Elem::UInt(UIntKind::U8))
    } else if raw == 8 {
        Some(Elem::UInt(UIntKind::U16))
    } else if raw == 9 {
        Some(Elem::UInt(UIntKind::U32))
    } else if raw == 10 {
        Some(Elem::UInt(UIntKind::U64))
    } else {
        None
    }
}

/// The element type that a Vulkan component type number stands for, if
/// kernels know the type.
pub fn conv_type(raw: i32) -> (r: Option<Elem>)
    ensures
        r == component_elem(raw),
{
    let ty = match raw {
        0 => Elem::Float(FloatKind::F16),
        1 => Elem::Float(FloatKind::F32),
        2 => Elem::Float(FloatKind::F64),
        3 => Elem::Int(IntKind::I8),
        4 => Elem::Int(IntKind::I16),
        5 => Elem::Int(IntKind::I32),
        6 => Elem::Int(IntKind::I64),
        7 => Elem::UInt(UIntKind::U8),
        8 => Elem::UInt(UIntKind::U16),
        9 => Elem::UInt(UIntKind::U32),
        10 => Elem::UInt(UIntKind::U64),
        _ => {
            return None;
        },
    };
    Some(ty)
}

/// The feature that a reported shape gives: one is given for a shape of
/// subgroup scope without saturation whose result has the type of its
/// third operand, and whose three component types kernels know. The sizes
/// are kept in their low eight bits.
pub open spec fn cmma_of(p: CooperativeMatrixProperties) -> Option<Feature> {
    if p.saturating_accumulation == 0 && p.result_type == p.c_type && p.scope == SCOPE_SUBGROUP
        && component_elem(p.a_type).is_some() && component_elem(p.b_type).is_some()
        && component_elem(p.c_type).is_some() {
        Some(
            Feature::Cmma {
                a: component_elem(p.a_type).unwrap(),
                b: component_elem(p.b_type).unwrap(),
                c: component_elem(p.c_type).unwrap(),
                m: (p.m_size % 256) as u8,
                k: (p.k_size % 256) as u8,
                n: (p.n_size % 256) as u8,
            },
        )
    } else {
        None
    }
}

/// The shapes' features as a function for use on sequences.
pub open spec fn cmma_fn() -> spec_fn(CooperativeMatrixProperties) -> Option<Feature> {
    |p: CooperativeMatrixProperties| cmma_of(p)
}

/// The feature that a reported shape gives, if it gives one.
pub fn cmma_feature(p: &CooperativeMatrixProperties) -> (r: Option<Feature>)
    ensures
        r == cmma_of(*p),
{
    if !(p.saturating_accumulation == 0 && p.result_type == p.c_type && p.scope == SCOPE_SUBGROUP) {
        return None;
    }
    let a = conv_type(p.a_type);
    let b = conv_type(p.b_type);
    let c = conv_type(p.c_type);
    match (a, b, c) {
        (Some(a), Some(b), Some(c)) => Some(
            Feature::Cmma {
                a,
                b,
                c,
                m: (p.m_size % 256) as u8,
                k: (p.k_size % 256) as u8,
                n: (p.n_size % 256) as u8,
            },
        ),
        _ => None,
    }
}

/// The element types that kernels may use on every device.
pub open spec fn supported() -> Seq<Elem> {
    seq![
        Elem::UInt(UIntKind::U8),
        Elem::UInt(UIntKind::U16),
        Elem::UInt(UIntKind::U32),
        Elem::UInt(UIntKind::U64),
        Elem::Int(IntKind::I8),
        Elem::Int(IntKind::I16),
        Elem::Int(IntKind::I32),
        Elem::Int(IntKind::I64),
        Elem::AtomicInt(IntKind::I32),
        Elem::AtomicInt(IntKind::I64),
        Elem::AtomicUInt(UIntKind::U32),
        Elem::AtomicUInt(UIntKind::U64),
        Elem::Float(FloatKind::F16),
        Elem::Float(FloatKind::F32),
        Elem::Bool,
    ]
}

/// The element types as features.
pub open spec fn type_feature() -> spec_fn(Elem) -> Feature {
    |e: Elem| Feature::Type(e)
}

/// The features that every device registers: one for each supported
/// element type, in their order.
pub fn register_types() -> (r: Vec<Feature>)
    ensures
        r@ == supported().map_values(type_feature()),
{
    let types: [Elem; 15] = [
        Elem::UInt(UIntKind::U8),
        Elem::UInt(UIntKind::U16),
        Elem::UInt(UIntKind::U32),
        Elem::UInt(UIntKind::U64),
        Elem::Int(IntKind::I8),
        Elem::Int(IntKind::I16),
        Elem::Int(IntKind::I32),
        Elem::Int(IntKind::I64),
        Elem::AtomicInt(IntKind::I32),
        Elem::AtomicInt(IntKind::I64),
        Elem::AtomicUInt(UIntKind::U32),
        Elem::AtomicUInt(UIntKind::U64),
        Elem::Float(FloatKind::F16),
        Elem::Float(FloatKind::F32),
        Elem::Bool,
    ];
    assert(types@ =~= supported());
    let mut out: Vec<Feature> = Vec::new();
    let mut i: usize = 0;
    while i < 15
        invariant
            i <= 15,
            types@ == supported(),
            out@ == supported().subrange(0, i as int).map_values(type_feature()),
        decreases 15 - i,
    {
        out.push(Feature::Type(types[i]));
        i += 1;
        assert(out@ =~= supported().subrange(0, i as int).map_values(type_feature()));
    }
    assert(supported().subrange(0, 15) =~= supported());
    out
}

/// The features of a device that reports these shapes: the supported
/// element types, then one feature for each shape that gives one, in the
/// order of the report.
pub fn register_features(shapes: &Vec<CooperativeMatrixProperties>) -> (r: Vec<Feature>)
    ensures
        r@ == supported().map_values(type_feature()) + shapes@.filter_map(cmma_fn()),
{
    let mut out = register_types();
    let ghost types = out@;
    let mut i: usize = 0;
    proof {
        assert(shapes@.take(0).filter_map(cmma_fn()) =~= Seq::<Feature>::empty());
        assert(out@ =~= types + shapes@.take(0).filter_map(cmma_fn()));
    }
    while i < shapes.len()
        invariant
            i <= shapes@.len(),
            types == supported().map_values(type_feature()),
            out@ == types + shapes@.take(i as int).filter_map(cmma_fn()),
        decreases shapes@.len() - i,
    {
        proof {
            shapes@.lemma_filter_map_take_succ(cmma_fn(), i as int);
        }
        match cmma_feature(&shapes[i]) {
            Some(f) => {
                out.push(f);
            },
            None => {},
        }
        i += 1;
        assert(out@ =~= types + shapes@.take(i as int).filter_map(cmma_fn()));
    }
    assert(shapes@.take(shapes@.len() as int) =~= shapes@);
    out
}

/// The mode in which a kernel is compiled: where the device checks
/// accesses itself, the kernel leaves its own checks out.
pub fn compile_mode(robust: bool, mode: ExecutionMode) -> (r: ExecutionMode)
    ensures
        r == if robust {
            ExecutionMode::Unchecked
        } else {
            mode
        },
{
    if robust {
        ExecutionMode::Unchecked
    } else {
        mode
    }
}

/// The device has the extension called `wanted` among those that were
/// switched on.
pub fn is_robust(enabled: &Vec<Vec<u8>>, wanted: &Vec<u8>) -> (r: bool)
    ensures
        r == exists|i: int| 0 <= i < enabled@.len() && (#[trigger] enabled@[i])@ == wanted@,
{
    let mut i: usize = 0;
    while i < enabled.len()
        invariant
            i <= enabled@.len(),
            forall|j: int| 0 <= j < i ==> (#[trigger] enabled@[j])@ != wanted@,
        decreases enabled@.len() - i,
    {
        if same_bytes(&enabled[i], wanted) {
            return true;
        }
        i += 1;
    }
    false
}

/// The two names are the same bytes.
fn same_bytes(a: &Vec<u8>, b: &Vec<u8>) -> (r: bool)
    ensures
        r == (a@ == b@),
{
    if a.len() != b.len() {
        return false;
    }
    let mut i: usize = 0;
    while i < a.len()
        invariant
            a@.len() == b@.len(),
            i <= a@.len(),
            forall|j: int| 0 <= j < i ==> a@[j] == b@[j],
        decreases a@.len() - i,
    {
        if a[i] != b[i] {
            return false;
        }
        i += 1;
    }
    assert(a@ =~= b@);
    true
}

/// The name of the runtime.
pub fn name() -> (r: &'static str)
    ensures
        r@ == "wgpu<spirv>"@,
{
    "wgpu<spirv>"
}

/// The ending of the files that hold compiled kernels.
pub fn extension() -> (r: &'static str)
    ensures
        r@ == "spv"@,
{
    "spv"
}

/// The line sizes that kernels may use, widest first.
pub fn supported_line_sizes() -> (r: [u8; 2])
    ensures
        r@ == seq![4u8, 2u8],
{
    let r: [u8; 2] = [4, 2];
    assert(r@ =~= seq![4u8, 2u8]);
    r
}

/// The largest number of cubes along each of the three axes.
pub fn max_cube_count() -> (r: (u32, u32, u32))
    ensures
        r == (65535u32, 65535u32, 65535u32),
{
    let max_dim: u32 = 65535;
    (max_dim, max_dim, max_dim)
}

/// The number of the next device, where `taken` devices were numbered
/// before; `None` where the numbers have run out.
pub fn next_device_id(taken: u32) -> (r: Option<u32>)
    ensures
        r == if taken == u32::MAX {
            None
        } else {
            Some(taken)
        },
{
    if taken == u32::MAX {
        None
    } else {
        Some(taken)
    }
}

} // verus!
