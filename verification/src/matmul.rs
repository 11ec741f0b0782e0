use vstd::prelude::*;
use crate::text::{decimal, decimal_text, push_text};

verus! {

/// The precisions of floating-point elements.
#[derive(Debug, Clone, Copy, PartialEq, Eq, Structural)]
pub enum FloatKind {
    F16,
    BF16,
    Flex32,
    F32,
    TF32,
    F64,
}

/// The widths of signed integer elements.
#[derive(Debug, Clone, Copy, PartialEq, Eq, Structural)]
pub enum IntKind {
    I8,
    I16,
    I32,
    I64,
}

/// The widths of unsigned integer elements.
#[derive(Debug, Clone, Copy, PartialEq, Eq, Structural)]
pub enum UIntKind {
    U8,
    U16,
    U32,
    U64,
}

/// The type of one element of a tensor.
#[derive(Debug, Clone, Copy, PartialEq, Eq, Structural)]
pub enum Elem {
    Float(FloatKind),
    Int(IntKind),
    AtomicInt(IntKind),
    UInt(UIntKind),
    AtomicUInt(UIntKind),
    Bool,
}

/// Why a matrix multiplication cannot be launched.
#[derive(Clone, Copy, PartialEq, Eq, Structural)]
pub enum MatmulLaunchError {
    Unavailable(MatmulAvailabilityError),
    InvalidProblem(MatmulInvalidProblem),
}

/// A feature that the launch needs and the device lacks.
#[derive(Clone, Copy, PartialEq, Eq, Structural)]
pub enum MatmulAvailabilityError {
    PlaneOperationsUnavailable,
    TypesUnavailable { input: Elem, output: Elem },
    CmmaInstructionUnavailable { input: Elem, output: Elem, m: u32, n: u32, k: u32 },
}

/// A problem that the chosen configuration cannot take.
#[derive(Clone, Copy, PartialEq, Eq, Structural)]
pub enum MatmulInvalidProblem {
    ExceededMSize { m: u32, max_m: u32 },
    ExceededNSize { n: u32, max_n: u32 },
    ExceededBatchSize { b: u32, max_b: u32 },
    InvalidLineSizeLhs { size: u32, line_size: u8 },
    InvalidLineSizeRhs { size: u32, line_size: u8 },
    InvalidLineSizeOut { size: u32, line_size: u8 },
}

impl From<MatmulInvalidProblem> for MatmulLaunchError {
    fn from(value: MatmulInvalidProblem) -> (r: Self) {
        MatmulLaunchError::InvalidProblem(value)
    }
}

impl vstd::std_specs::convert::FromSpecImpl<MatmulInvalidProblem> for MatmulLaunchError {
    open spec fn obeys_from_spec() -> bool {
        true
    }

    open spec fn from_spec(value: MatmulInvalidProblem) -> Self {
        MatmulLaunchError::InvalidProblem(value)
    }
}

impl From<MatmulAvailabilityError> for MatmulLaunchError {
    fn from(value: MatmulAvailabilityError) -> (r: Self) {
        MatmulLaunchError::Unavailable(value)
    }
}

impl vstd::std_specs::convert::FromSpecImpl<MatmulAvailabilityError> for MatmulLaunchError {
    open spec fn obeys_from_spec() -> bool {
        true
    }

    open spec fn from_spec(value: MatmulAvailabilityError) -> Self {
        MatmulLaunchError::Unavailable(value)
    }
}

/// A text of three parts with a number after each of the first two.
pub open spec fn framed(a: Seq<char>, x: nat, b: Seq<char>, y: nat, c: Seq<char>) -> Seq<char> {
    a + decimal_text(x) + b + decimal_text(y) + c
}

/// Writes the text of three parts with a number after each of the first
/// two.
fn frame(a: &str, x: u64, b: &str, y: u64, c: &str) -> (r: String)
    ensures
        r@ == framed(a@, x as nat, b@, y as nat, c@),
{
    let mut out = String::new();
    push_text(&mut out, a);
    push_text(&mut out, decimal(x).as_str());
    push_text(&mut out, b);
    push_text(&mut out, decimal(y).as_str());
    push_text(&mut out, c);
    assert(out@ =~= framed(a@, x as nat, b@, y as nat, c@));
    out
}

impl FloatKind {
    /// The name of the precision.
    pub open spec fn name(self) -> Seq<char> {
        match self {
            FloatKind::F16 => "F16"@,
            FloatKind::BF16 => "BF16"@,
            FloatKind::Flex32 => "Flex32"@,
            FloatKind::F32 => "F32"@,
            FloatKind::TF32 => "TF32"@,
            FloatKind::F64 => "F64"@,
        }
    }

    /// The name of the precision.
    pub fn label(&self) -> (r: &'static str)
        ensures
            r@ == self.name(),
    {
        match self {
            FloatKind::F16 => "F16",
            FloatKind::BF16 => "BF16",
            FloatKind::Flex32 => "Flex32",
            FloatKind::F32 => "F32",
            FloatKind::TF32 => "TF32",
            FloatKind::F64 => "F64",
        }
    }
}

impl IntKind {
    /// The name of the width.
    pub open spec fn name(self) -> Seq<char> {
        match self {
            IntKind::I8 => "I8"@,
            IntKind::I16 => "I16"@,
            IntKind::I32 => "I32"@,
            IntKind::I64 => "I64"@,
        }
    }

    /// The name of the width.
    pub fn label(&self) -> (r: &'static str)
        ensures
            r@ == self.name(),
    {
        match self {
            IntKind::I8 => "I8",
            IntKind::I16 => "I16",
            IntKind::I32 => "I32",
            IntKind::I64 => "I64",
        }
    }
}

impl UIntKind {
    /// The name of the width.
    pub open spec fn name(self) -> Seq<char> {
        match self {
            UIntKind::U8 => "U8"@,
            UIntKind::U16 => "U16"@,
            UIntKind::U32 => "U32"@,
            UIntKind::U64 => "U64"@,
        }
    }

    /// The name of the width.
    pub fn label(&self) -> (r: &'static str)
        ensures
            r@ == self.name(),
    {
        match self {
            UIntKind::U8 => "U8",
            UIntKind::U16 => "U16",
            UIntKind::U32 => "U32",
            UIntKind::U64 => "U64",
        }
    }
}

impl Elem {
    /// The element type written as its variant with the kind in brackets.
    pub open spec fn name(self) -> Seq<char> {
        match self {
            Elem::Float(k) => "Float("@ + k.name() + ")"@,
            Elem::Int(k) => "Int("@ + k.name() + ")"@,
            Elem::AtomicInt(k) => "AtomicInt("@ + k.name() + ")"@,
            Elem::UInt(k) => "UInt("@ + k.name() + ")"@,
            Elem::AtomicUInt(k) => "AtomicUInt("@ + k.name() + ")"@,
            Elem::Bool => "Bool"@,
        }
    }

    /// The element type written as its variant with the kind in brackets.
    pub fn label(&self) -> (r: String)
        ensures
            r@ == self.name(),
    {
        let mut out = String::new();
        let (head, kind): (&str, &str) = match self {
            Elem::Float(k) => ("Float(", k.label()),
            Elem::Int(k) => ("Int(", k.label()),
            Elem::AtomicInt(k) => ("AtomicInt(", k.label()),
            Elem::UInt(k) => ("UInt(", k.label()),
            Elem::AtomicUInt(k) => ("AtomicUInt(", k.label()),
            Elem::Bool => {
                push_text(&mut out, "Bool");
                assert(out@ =~= "Bool"@);
                return out;
            },
        };
        push_text(&mut out, head);
        push_text(&mut out, kind);
        push_text(&mut out, ")");
        assert(out@ =~= head@ + kind@ + ")"@);
        out
    }
}

impl MatmulInvalidProblem {
    /// What the error says of the problem.
    pub open spec fn text(self) -> Seq<char> {
        match self {
            MatmulInvalidProblem::ExceededMSize { m, max_m } => framed(
                "Problem has m="@,
                m as nat,
                " but these configs can only have m<="@,
                max_m as nat,
                ""@,
            ),
            MatmulInvalidProblem::ExceededNSize { n, max_n } => framed(
                "Problem has n="@,
                n as nat,
                " but these configs can only have n<="@,
                max_n as nat,
                ""@,
            ),
            MatmulInvalidProblem::ExceededBatchSize { b, max_b } => framed(
                "Problem has "@,
                b as nat,
                " batches but these configs can only have batches<="@,
                max_b as nat,
                ""@,
            ),
            MatmulInvalidProblem::InvalidLineSizeLhs { size, line_size } => framed(
                "the lhs tensor can't be read with line size="@,
                line_size as nat,
                " and dimension="@,
                size as nat,
                ""@,
            ),
            MatmulInvalidProblem::InvalidLineSizeRhs { size, line_size } => framed(
                "The rhs tensor can't be read with line size="@,
                line_size as nat,
                " and dimension="@,
                size as nat,
                ""@,
            ),
            MatmulInvalidProblem::InvalidLineSizeOut { size, line_size } => framed(
                "The out tensor can't be written with line size="@,
                line_size as nat,
                " and dimension="@,
                size as nat,
                ""@,
            ),
        }
    }

    /// What the error says of the problem.
    pub fn message(&self) -> (r: String)
        ensures
            r@ == self.text(),
    {
        match *self {
            MatmulInvalidProblem::ExceededMSize { m, max_m } => frame(
                "Problem has m=",
                m as u64,
                " but these configs can only have m<=",
                max_m as u64,
                "",
            ),
            MatmulInvalidProblem::ExceededNSize { n, max_n } => frame(
                "Problem has n=",
                n as u64,
                " but these configs can only have n<=",
                max_n as u64,
                "",
            ),
            MatmulInvalidProblem::ExceededBatchSize { b, max_b } => frame(
                "Problem has ",
                b as u64,
                " batches but these configs can only have batches<=",
                max_b as u64,
                "",
            ),
            MatmulInvalidProblem::InvalidLineSizeLhs { size, line_size } => frame(
                "the lhs tensor can't be read with line size=",
                line_size as u64,
                " and dimension=",
                size as u64,
                "",
            ),
            MatmulInvalidProblem::InvalidLineSizeRhs { size, line_size } => frame(
                "The rhs tensor can't be read with line size=",
                line_size as u64,
                " and dimension=",
                size as u64,
                "",
            ),
            MatmulInvalidProblem::InvalidLineSizeOut { size, line_size } => frame(
                "The out tensor can't be written with line size=",
                line_size as u64,
                " and dimension=",
                size as u64,
                "",
            ),
        }
    }
}

impl MatmulAvailabilityError {
    /// What the error says of the missing feature; the text ends with a
    /// line break.
    pub open spec fn text(self) -> Seq<char> {
        match self {
            MatmulAvailabilityError::PlaneOperationsUnavailable => "Plane operations not supported.\n"@,
            MatmulAvailabilityError::TypesUnavailable { input, output } => "Types input="@
                + input.name() + " and/or output="@ + output.name() + " not supported.\n"@,
            MatmulAvailabilityError::CmmaInstructionUnavailable { input, output, m, n, k } =>
                "Cmma on inputs "@ + input.name() + " and outputs "@ + output.name()
                    + " with shape m="@ + decimal_text(m as nat) + ", n="@ + decimal_text(n as nat)
                    + ", k="@ + decimal_text(k as nat) + " not supported.\n"@,
        }
    }

    /// What the error says of the missing feature.
    pub fn message(&self) -> (r: String)
        ensures
            r@ == self.text(),
    {
        let mut out = String::new();
        match *self {
            MatmulAvailabilityError::PlaneOperationsUnavailable => {
                push_text(&mut out, "Plane operations not supported.\n");
            },
            MatmulAvailabilityError::TypesUnavailable { input, output } => {
                push_text(&mut out, "Types input=");
                push_text(&mut out, input.label().as_str());
                push_text(&mut out, " and/or output=");
                push_text(&mut out, output.label().as_str());
                push_text(&mut out, " not supported.\n");
            },
            MatmulAvailabilityError::CmmaInstructionUnavailable { input, output, m, n, k } => {
                push_text(&mut out, "Cmma on inputs ");
                push_text(&mut out, input.label().as_str());
                push_text(&mut out, " and outputs ");
                push_text(&mut out, output.label().as_str());
                push_text(&mut out, " with shape m=");
                push_text(&mut out, decimal(m as u64).as_str());
                push_text(&mut out, ", n=");
                push_text(&mut out, decimal(n as u64).as_str());
                push_text(&mut out, ", k=");
                push_text(&mut out, decimal(k as u64).as_str());
                push_text(&mut out, " not supported.\n");
            },
        }
        assert(out@ =~= self.text());
        out
    }
}

impl MatmulLaunchError {
    /// What the error says: why the launch failed, then what the inner
    /// error says, then a line break.
    pub open spec fn text(self) -> Seq<char> {
        match self {
            MatmulLaunchError::Unavailable(err) =>
                "Unable to launch matmul because a required feature is unavailable: "@ + err.text()
                    + "\n"@,
            MatmulLaunchError::InvalidProblem(err) =>
                "Unable to launch matmul because the problem isn't correctly defined: "@
                    + err.text() + "\n"@,
        }
    }

    /// What the error says.
    pub fn message(&self) -> (r: String)
        ensures
            r@ == self.text(),
    {
        let mut out = String::new();
        match *self {
            MatmulLaunchError::Unavailable(err) => {
                push_text(
                    &mut out,
                    "Unable to launch matmul because a required feature is unavailable: ",
                );
                push_text(&mut out, err.message().as_str());
            },
            MatmulLaunchError::InvalidProblem(err) => {
                push_text(
                    &mut out,
                    "Unable to launch matmul because the problem isn't correctly defined: ",
                );
                push_text(&mut out, err.message().as_str());
            },
        }
        push_text(&mut out, "\n");
        assert(out@ =~= self.text());
        out
    }
}

} // verus!
