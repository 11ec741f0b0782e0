use device_memory::dump::{dump_name, dump_paths, file_stem, kernel_bytes, raw_stem, short_name};
use device_memory::features::{
    cmma_feature, compile_mode, conv_type, extension, is_robust, max_cube_count, name,
    next_device_id, register_features, register_types, supported_line_sizes,
    CooperativeMatrixProperties, ExecutionMode, Feature, SCOPE_SUBGROUP,
};
use device_memory::matmul::{
    Elem, FloatKind, IntKind, MatmulAvailabilityError, MatmulInvalidProblem, MatmulLaunchError,
    UIntKind,
};

fn shape(a: i32, b: i32, c: i32) -> CooperativeMatrixProperties {
    CooperativeMatrixProperties {
        m_size: 16,
        n_size: 8,
        k_size: 32,
        a_type: a,
        b_type: b,
        c_type: c,
        result_type: c,
        saturating_accumulation: 0,
        scope: SCOPE_SUBGROUP,
    }
}

#[test]
fn invalid_problems_say_what_is_wrong() {
    assert_eq!(
        MatmulInvalidProblem::ExceededMSize { m: 5, max_m: 4 }.message(),
        "Problem has m=5 but these configs can only have m<=4"
    );
    assert_eq!(
        MatmulInvalidProblem::ExceededNSize { n: 4294967295, max_n: 0 }.message(),
        "Problem has n=4294967295 but these configs can only have n<=0"
    );
    assert_eq!(
        MatmulInvalidProblem::ExceededBatchSize { b: 12, max_b: 10 }.message(),
        "Problem has 12 batches but these configs can only have batches<=10"
    );
    assert_eq!(
        MatmulInvalidProblem::InvalidLineSizeLhs { size: 30, line_size: 4 }.message(),
        "the lhs tensor can't be read with line size=4 and dimension=30"
    );
    assert_eq!(
        MatmulInvalidProblem::InvalidLineSizeRhs { size: 31, line_size: 2 }.message(),
        "The rhs tensor can't be read with line size=2 and dimension=31"
    );
    assert_eq!(
        MatmulInvalidProblem::InvalidLineSizeOut { size: 33, line_size: 255 }.message(),
        "The out tensor can't be written with line size=255 and dimension=33"
    );
}

#[test]
fn missing_features_say_what_is_missing() {
    assert_eq!(
        MatmulAvailabilityError::PlaneOperationsUnavailable.message(),
        "Plane operations not supported.\n"
    );
    assert_eq!(
        MatmulAvailabilityError::TypesUnavailable {
            input: Elem::Float(FloatKind::F16),
            output: Elem::Bool,
        }
        .message(),
        "Types input=Float(F16) and/or output=Bool not supported.\n"
    );
    assert_eq!(
        MatmulAvailabilityError::CmmaInstructionUnavailable {
            input: Elem::AtomicUInt(UIntKind::U64),
            output: Elem::Int(IntKind::I8),
            m: 16,
            n: 8,
            k: 4,
        }
        .message(),
        "Cmma on inputs AtomicUInt(U64) and outputs Int(I8) with shape m=16, n=8, k=4 not supported.\n"
    );
    assert_eq!(Elem::Float(FloatKind::BF16).label(), "Float(BF16)");
    assert_eq!(Elem::AtomicInt(IntKind::I32).label(), "AtomicInt(I32)");
    assert_eq!(Elem::UInt(UIntKind::U16).label(), "UInt(U16)");
    assert_eq!(format!("{:?}", Elem::Float(FloatKind::TF32)), Elem::Float(FloatKind::TF32).label());
}

#[test]
fn launch_errors_wrap_the_inner_error() {
    let invalid = MatmulInvalidProblem::ExceededMSize { m: 5, max_m: 4 };
    let launch: MatmulLaunchError = invalid.into();
    assert!(launch == MatmulLaunchError::InvalidProblem(invalid));
    assert_eq!(
        launch.message(),
        "Unable to launch matmul because the problem isn't correctly defined: Problem has m=5 but these configs can only have m<=4\n"
    );
    let missing = MatmulAvailabilityError::PlaneOperationsUnavailable;
    let launch = MatmulLaunchError::from(missing);
    assert!(launch == MatmulLaunchError::Unavailable(missing));
    assert_eq!(
        launch.message(),
        "Unable to launch matmul because a required feature is unavailable: Plane operations not supported.\n\n"
    );
}

#[test]
fn component_types_map_to_elements() {
    assert_eq!(conv_type(0), Some(Elem::Float(FloatKind::F16)));
    assert_eq!(conv_type(1), Some(Elem::Float(FloatKind::F32)));
    assert_eq!(conv_type(2), Some(Elem::Float(FloatKind::F64)));
    assert_eq!(conv_type(3), Some(Elem::Int(IntKind::I8)));
    assert_eq!(conv_type(4), Some(Elem::Int(IntKind::I16)));
    assert_eq!(conv_type(5), Some(Elem::Int(IntKind::I32)));
    assert_eq!(conv_type(6), Some(Elem::Int(IntKind::I64)));
    assert_eq!(conv_type(7), Some(Elem::UInt(UIntKind::U8)));
    assert_eq!(conv_type(8), Some(Elem::UInt(UIntKind::U16)));
    assert_eq!(conv_type(9), Some(Elem::UInt(UIntKind::U32)));
    assert_eq!(conv_type(10), Some(Elem::UInt(UIntKind::U64)));
    assert_eq!(conv_type(11), None);
    assert_eq!(conv_type(-1), None);
    assert_eq!(conv_type(1000141000), None);
}

#[test]
fn only_plain_subgroup_shapes_become_features() {
    let good = shape(0, 0, 1);
    assert_eq!(
        cmma_feature(&good),
        Some(Feature::Cmma {
            a: Elem::Float(FloatKind::F16),
            b: Elem::Float(FloatKind::F16),
            c: Elem::Float(FloatKind::F32),
            m: 16,
            k: 32,
            n: 8,
        })
    );
    let mut saturating = good;
    saturating.saturating_accumulation = 1;
    assert_eq!(cmma_feature(&saturating), None);
    let mut other_result = good;
    other_result.result_type = 0;
    assert_eq!(cmma_feature(&other_result), None);
    let mut workgroup = good;
    workgroup.scope = 2;
    assert_eq!(cmma_feature(&workgroup), None);
    assert_eq!(cmma_feature(&shape(0, 11, 1)), None);
    assert_eq!(cmma_feature(&shape(1000141000, 0, 1)), None);
    let mut wide = good;
    wide.m_size = 256 + 7;
    assert!(matches!(cmma_feature(&wide), Some(Feature::Cmma { m: 7, .. })));
}

#[test]
fn features_are_registered_in_order() {
    let types = register_types();
    assert_eq!(types.len(), 15);
    assert_eq!(types[0], Feature::Type(Elem::UInt(UIntKind::U8)));
    assert_eq!(types[8], Feature::Type(Elem::AtomicInt(IntKind::I32)));
    assert_eq!(types[12], Feature::Type(Elem::Float(FloatKind::F16)));
    assert_eq!(types[13], Feature::Type(Elem::Float(FloatKind::F32)));
    assert_eq!(types[14], Feature::Type(Elem::Bool));
    assert!(!types.contains(&Feature::Type(Elem::Float(FloatKind::F64))));

    let mut bad = shape(3, 3, 5);
    bad.scope = 1;
    let all = register_features(&vec![shape(3, 3, 5), bad, shape(7, 7, 9)]);
    assert_eq!(all.len(), 17);
    assert_eq!(&all[..15], &types[..]);
    assert!(matches!(all[15], Feature::Cmma { a: Elem::Int(IntKind::I8), .. }));
    assert!(matches!(all[16], Feature::Cmma { c: Elem::UInt(UIntKind::U32), .. }));
    assert_eq!(register_features(&Vec::new()), types);
}

#[test]
fn runtime_facts() {
    assert_eq!(name(), "wgpu<spirv>");
    assert_eq!(extension(), "spv");
    assert_eq!(supported_line_sizes(), [4, 2]);
    assert_eq!(max_cube_count(), (65535, 65535, 65535));
    assert_eq!(compile_mode(true, ExecutionMode::Checked), ExecutionMode::Unchecked);
    assert_eq!(compile_mode(false, ExecutionMode::Checked), ExecutionMode::Checked);
    assert_eq!(compile_mode(false, ExecutionMode::Unchecked), ExecutionMode::Unchecked);
    assert_eq!(next_device_id(0), Some(0));
    assert_eq!(next_device_id(u32::MAX - 1), Some(u32::MAX - 1));
    assert_eq!(next_device_id(u32::MAX), None);
    let enabled = vec![b"VK_KHR_swapchain".to_vec(), b"VK_EXT_robustness2".to_vec()];
    assert!(is_robust(&enabled, &b"VK_EXT_robustness2".to_vec()));
    assert!(!is_robust(&enabled, &b"VK_EXT_robustness".to_vec()));
    assert!(!is_robust(&Vec::new(), &b"VK_EXT_robustness2".to_vec()));
}

#[test]
fn file_names_are_made_safe() {
    assert_eq!(raw_stem("kernel", 255), "kernel_0xff");
    assert_eq!(raw_stem("k", 0), "k_0x0");
    assert_eq!(raw_stem("k", u64::MAX), "k_0xffffffffffffffff");
    assert_eq!(raw_stem("a<b>::c", 16), "a<b>::c_0x10");
    assert_eq!(file_stem("kernel", 255, false), "kernel_0xff");
    assert_eq!(file_stem("kernel", 255, true), "kernel_0xff");
    assert_eq!(file_stem("a<b>::c", 16, false), "a_b___c_0x10");
    assert_eq!(file_stem("a<b>::c", 16, true), "a_b___c_0x10");
    assert_eq!(file_stem("a/b\\c?d*e|f\"g\u{1}h\u{85}i", 2, false), "a_b_c_d_e_f_g_h_i_0x2");
    assert_eq!(file_stem("con.", 1, false), "con._0x1");
    assert_eq!(file_stem("con.", 1, true), "_");
    assert_eq!(file_stem("LPT7.x", 1, true), "_");
    assert_eq!(file_stem("con", 1, true), "con_0x1");
    assert_eq!(file_stem("", 0, false), "_0x0");
    let long = "x".repeat(300);
    assert_eq!(file_stem(&long, 1, false), "x".repeat(255));
    assert_eq!(file_stem(&long, 1, true).len(), 255);
    let wide = "\u{e9}".repeat(200);
    assert_eq!(file_stem(&wide, 1, false), "\u{e9}".repeat(127));
    assert_eq!(
        dump_paths("out", "k_0x1"),
        ("out/k_0x1.spv".to_string(), "out/k_0x1.ir.txt".to_string())
    );
}

#[test]
fn words_are_written_lowest_byte_first() {
    assert_eq!(kernel_bytes(&vec![0x07230203]), vec![0x03, 0x02, 0x23, 0x07]);
    assert_eq!(
        kernel_bytes(&vec![1, 0xffff_ffff, 0x0100_0000]),
        vec![1, 0, 0, 0, 255, 255, 255, 255, 0, 0, 0, 1]
    );
    assert_eq!(kernel_bytes(&vec![0x12345678u32]), 0x12345678u32.to_le_bytes().to_vec());
    assert!(kernel_bytes(&Vec::new()).is_empty());
}

fn shortened_by_std(name: &str) -> String {
    name.split("<")
        .take_while(|it| !it.ends_with("Runtime"))
        .map(|it| it.split(">").next().unwrap())
        .map(|it| it.split("::").last().unwrap())
        .collect::<Vec<_>>()
        .join("_")
}

#[test]
fn kernel_names_are_shortened() {
    assert_eq!(short_name("a::b::Kernel<c::F32, d::WgpuRuntime>"), "Kernel_WgpuRuntime");
    assert_eq!(short_name("a::b::Kernel<c::F32<x::WgpuRuntime<y>>>"), "Kernel_F32");
    assert_eq!(short_name("matmul::Launch<f32>"), "Launch_f32");
    assert_eq!(short_name("plain"), "plain");
    assert_eq!(short_name(""), "");
    assert_eq!(short_name("SomeRuntime<a>"), "");
    assert_eq!(short_name("a<"), "a_");
    assert_eq!(short_name(":::"), ":");
    assert_eq!(short_name("a::::b:::c"), ":c");
    let names = [
        "",
        "a",
        "a<",
        "<",
        "<<",
        ">",
        "::",
        ":::",
        "::::",
        "a:::b",
        "a::b::c<d::e>>f",
        "a>b::c<d",
        "x<yRuntime<z",
        "Runtime",
        "untime",
        "xRuntim<e",
        "a::Runtime>b<c",
        "p::q::K<r::S<t::U>, v::W<x::YRuntime>>",
        "\u{e9}::\u{fc}<\u{df}::\u{4e16}\u{754c}>",
        "a:b:c<:d:",
    ];
    for name in names {
        assert_eq!(short_name(name), shortened_by_std(name), "for {:?}", name);
    }
    assert_eq!(
        dump_name("a::b::Kernel<c::F32, d::WgpuRuntime>", 26, false),
        "Kernel_WgpuRuntime_0x1a"
    );
    assert_eq!(dump_name("k<a/b>", 1, false), "k_a_b_0x1");
    assert_eq!(dump_name("k<a/b>", 1, true), "k_a_b_0x1");
    assert_eq!(dump_name("x::con<y::.z>", 3, false), "con_.z_0x3");
    assert_eq!(dump_name("x::aux.<y>", 3, true), "_");
    assert_eq!(dump_name("x::aux.<y>", 3, false), "aux._y_0x3");
}
