use smem::compare::{Arith, FloatOps, FloatOrder, FloatPair, FloatSyntax, ScanMode};
use smem::value::ValueType;

fn ops() -> FloatOps<
    impl Fn(Vec<char>, FloatSyntax) -> Option<ValueType>,
    impl Fn(FloatPair) -> FloatOrder,
    impl Fn(FloatPair, Arith) -> u64,
> {
    FloatOps {
        parse: |t: Vec<char>, syntax: FloatSyntax| {
            let text: String = t.into_iter().collect();
            match syntax {
                FloatSyntax::Single => text.parse::<f32>().ok().map(|x| ValueType::Float32(x.to_bits())),
                FloatSyntax::Double => text.parse::<f64>().ok().map(|x| ValueType::Float64(x.to_bits())),
                FloatSyntax::Auto => text.parse::<f64>().ok().map(|x| {
                    if x.abs() <= f32::MAX as f64 {
                        ValueType::Float32((x as f32).to_bits())
                    } else {
                        ValueType::Float64(x.to_bits())
                    }
                }),
            }
        },
        order: |p: FloatPair| {
            let (close, above, below) = match p {
                FloatPair::Single(a, b) => {
                    let (x, y) = (f32::from_bits(a), f32::from_bits(b));
                    ((x - y).abs() < f32::EPSILON, x > y, x < y)
                }
                FloatPair::Double(a, b) => {
                    let (x, y) = (f64::from_bits(a), f64::from_bits(b));
                    ((x - y).abs() < f64::EPSILON, x > y, x < y)
                }
            };
            if close {
                FloatOrder::Close
            } else if above {
                FloatOrder::Above
            } else if below {
                FloatOrder::Below
            } else {
                FloatOrder::Unordered
            }
        },
        arith: |p: FloatPair, op: Arith| match p {
            FloatPair::Single(a, b) => {
                let (x, y) = (f32::from_bits(a), f32::from_bits(b));
                (match op {
                    Arith::Sum => x + y,
                    Arith::Difference => x - y,
                })
                .to_bits() as u64
            }
            FloatPair::Double(a, b) => {
                let (x, y) = (f64::from_bits(a), f64::from_bits(b));
                (match op {
                    Arith::Sum => x + y,
                    Arith::Difference => x - y,
                })
                .to_bits()
            }
        },
    }
}

fn parse(s: &str) -> Option<ValueType> {
    ValueType::parse_user_value(s, &ops())
}

#[test]
fn bare_numbers_take_the_narrowest_type() {
    assert_eq!(parse("42"), Some(ValueType::Int8(42)));
    assert_eq!(parse("200"), Some(ValueType::Int16(200)));
    assert_eq!(parse("70000"), Some(ValueType::Int32(70000)));
    assert_eq!(parse("5000000000"), Some(ValueType::Int64(5_000_000_000)));
    assert_eq!(parse("1.5"), Some(ValueType::Float32(1.5f32.to_bits())));
    assert_eq!(parse("1e40"), Some(ValueType::Float64(1e40f64.to_bits())));
    assert_eq!(parse("-129"), Some(ValueType::Int16(-129)));
    assert_eq!(parse("+7"), Some(ValueType::Int8(7)));
}

#[test]
fn prefixed_numbers_take_the_named_type() {
    assert_eq!(parse("hex:ff"), Some(ValueType::UInt8(255)));
    assert_eq!(parse("hex:1ff"), Some(ValueType::UInt16(0x1ff)));
    assert_eq!(parse("h:FFFFFFFF"), Some(ValueType::UInt32(0xffff_ffff)));
    assert_eq!(parse("hex:100000000"), Some(ValueType::UInt64(0x1_0000_0000)));
    assert_eq!(parse("i32:-1"), Some(ValueType::Int32(-1)));
    assert_eq!(parse("bool:true"), Some(ValueType::Bool(true)));
    assert_eq!(parse("boolean:false"), Some(ValueType::Bool(false)));
    assert_eq!(parse("float:1.5"), Some(ValueType::Float32(1.5f32.to_bits())));
    assert_eq!(parse("double:0.25"), Some(ValueType::Float64(0.25f64.to_bits())));
    assert_eq!(parse("byte:255"), Some(ValueType::UInt8(255)));
    assert_eq!(parse("short:-300"), Some(ValueType::Int16(-300)));
    assert_eq!(parse("long:5"), Some(ValueType::Int64(5)));
    assert_eq!(parse("size:4096"), Some(ValueType::Size(4096)));
    assert_eq!(parse("ptr:16"), Some(ValueType::Pointer(16)));
}

#[test]
fn bad_values_do_not_parse() {
    assert_eq!(parse("byte:256"), None);
    assert_eq!(parse("i8:128"), None);
    assert_eq!(parse("bool:yes"), None);
    assert_eq!(parse("hex:xyz"), None);
    assert_eq!(parse("size:-1"), None);
    assert_eq!(parse("abc"), None);
    assert_eq!(parse(""), None);
    assert_eq!(parse("-"), None);
    assert_eq!(parse("foo:1"), None);
}

#[test]
fn white_space_around_the_value_is_ignored() {
    assert_eq!(parse("  42\t"), Some(ValueType::Int8(42)));
    assert_eq!(parse("\n i16:5 "), Some(ValueType::Int16(5)));
}

#[test]
fn round_trip_through_bytes() {
    let values = [
        ValueType::Int8(-5),
        ValueType::Int16(-300),
        ValueType::Int32(-70000),
        ValueType::Int64(i64::MIN),
        ValueType::UInt8(200),
        ValueType::UInt16(65535),
        ValueType::UInt32(0xdead_beef),
        ValueType::UInt64(u64::MAX),
        ValueType::Float32(3.25f32.to_bits()),
        ValueType::Float64((-2.5f64).to_bits()),
        ValueType::Size(usize::MAX),
        ValueType::Pointer(0x1234),
        ValueType::Bool(true),
    ];
    for v in values {
        let b = v.to_bytes();
        assert_eq!(b.len(), ValueType::type_size(&v));
        assert_eq!(ValueType::from_bytes(b, v), v);
    }
}

#[test]
fn bytes_are_in_native_order() {
    assert_eq!(ValueType::Int32(42).to_bytes(), 42i32.to_ne_bytes().to_vec());
    assert_eq!(ValueType::UInt16(0x1234).to_bytes(), 0x1234u16.to_ne_bytes().to_vec());
    assert_eq!(ValueType::Bool(true).to_bytes(), vec![1]);
    assert_eq!(ValueType::Bool(false).to_bytes(), vec![0]);
    assert_eq!(
        ValueType::from_bytes(vec![0x2a, 0, 0, 0], ValueType::Int32(0)),
        ValueType::Int32(42)
    );
    assert_eq!(ValueType::from_bytes(vec![7], ValueType::Bool(false)), ValueType::Bool(true));
    assert_eq!(ValueType::from_bytes(vec![0x2a], ValueType::Int32(0)), ValueType::Int32(42));
}

#[test]
fn type_sizes() {
    assert_eq!(ValueType::type_size(&ValueType::Bool(false)), 1);
    assert_eq!(ValueType::type_size(&ValueType::UInt16(0)), 2);
    assert_eq!(ValueType::type_size(&ValueType::Float32(0)), 4);
    assert_eq!(ValueType::type_size(&ValueType::Float64(0)), 8);
    assert_eq!(ValueType::type_size(&ValueType::Size(0)), std::mem::size_of::<usize>());
}

#[test]
fn scan_lists_follow_the_value() {
    assert_eq!(
        ValueType::scan_types(&ValueType::Int8(1)),
        vec![ValueType::Int8(0), ValueType::Int16(0), ValueType::Int32(0)]
    );
    assert_eq!(
        ValueType::scan_types(&ValueType::Size(1)),
        vec![ValueType::Size(0), ValueType::UInt64(0), ValueType::Int64(0)]
    );
    assert_eq!(
        ValueType::scan_types(&ValueType::Bool(true)),
        vec![ValueType::Bool(false), ValueType::UInt8(0)]
    );
}

#[test]
fn type_names_round_trip() {
    let t = ValueType::UInt32(9);
    assert_eq!(ValueType::type_to_string(&t), "UInt32");
    assert_eq!(ValueType::string_to_type("UInt32"), Some(ValueType::UInt32(0)));
    assert_eq!(ValueType::string_to_type("Pointer"), Some(ValueType::Pointer(0)));
    assert_eq!(ValueType::string_to_type("Auto"), None);
}

#[test]
fn comparator_table() {
    let fl = ops();
    let old = ValueType::Int8(10);
    let new = ValueType::Int8(12);
    let inp = ValueType::Int8(2);
    let c = |m: ScanMode, i: &ValueType| ValueType::comparator(&m, &old, &new, i, &fl);
    assert!(c(ScanMode::Changed, &inp));
    assert!(!c(ScanMode::Unchanged, &inp));
    assert!(c(ScanMode::Increased, &inp));
    assert!(c(ScanMode::IncreasedOrGreater, &inp));
    assert!(c(ScanMode::IncreasedBy, &inp));
    assert!(!c(ScanMode::Decreased, &inp));
    assert!(!c(ScanMode::DecreasedOrLess, &inp));
    assert!(!c(ScanMode::DecreasedBy, &inp));
    assert!(c(ScanMode::Exact, &ValueType::Int8(12)));
    assert!(!c(ScanMode::Exact, &ValueType::Int16(12)));
}

#[test]
fn mixed_types_never_compare() {
    let fl = ops();
    assert!(!ValueType::Int8(1).equals(&ValueType::Int16(1), &fl));
    assert!(!ValueType::Int8(2).greater(&ValueType::Int16(1), &fl));
    assert_eq!(ValueType::Int8(1).add(&ValueType::UInt8(1), &fl), None);
    assert_eq!(ValueType::Int8(1).sub(&ValueType::UInt8(1), &fl), None);
}

#[test]
fn integer_arithmetic_wraps() {
    let fl = ops();
    assert_eq!(ValueType::Int8(127).add(&ValueType::Int8(1), &fl), Some(ValueType::Int8(-128)));
    assert_eq!(ValueType::UInt8(0).sub(&ValueType::UInt8(1), &fl), Some(ValueType::UInt8(255)));
    assert_eq!(
        ValueType::UInt64(u64::MAX).add(&ValueType::UInt64(2), &fl),
        Some(ValueType::UInt64(1))
    );
    assert_eq!(
        ValueType::Int32(i32::MIN).sub(&ValueType::Int32(1), &fl),
        Some(ValueType::Int32(i32::MAX))
    );
    assert_eq!(ValueType::Size(0).sub(&ValueType::Size(1), &fl), Some(ValueType::Size(usize::MAX)));
    assert_eq!(ValueType::Bool(true).add(&ValueType::Bool(false), &fl), Some(ValueType::Bool(true)));
    assert_eq!(ValueType::Bool(true).sub(&ValueType::Bool(true), &fl), Some(ValueType::Bool(false)));
}

#[test]
fn floats_compare_within_epsilon() {
    let fl = ops();
    let a = ValueType::Float32(1.0f32.to_bits());
    let b = ValueType::Float32((1.0f32 + f32::EPSILON / 2.0).to_bits());
    let c = ValueType::Float32(1.5f32.to_bits());
    assert!(a.equals(&b, &fl));
    assert!(!a.greater(&b, &fl));
    assert!(c.greater(&a, &fl));
    assert!(a.less(&c, &fl));
    let nan = ValueType::Float64(f64::NAN.to_bits());
    assert!(!nan.equals(&nan, &fl));
    assert!(!nan.greater(&nan, &fl));
    assert_eq!(
        ValueType::Float64(1.5f64.to_bits()).add(&ValueType::Float64(0.25f64.to_bits()), &fl),
        Some(ValueType::Float64(1.75f64.to_bits()))
    );
    assert!(ValueType::comparator(
        &ScanMode::DecreasedBy,
        &ValueType::Float32(2.0f32.to_bits()),
        &ValueType::Float32(1.5f32.to_bits()),
        &ValueType::Float32(0.5f32.to_bits()),
        &fl
    ));
}

#[test]
fn booleans_order_false_below_true() {
    let fl = ops();
    assert!(ValueType::Bool(true).greater(&ValueType::Bool(false), &fl));
    assert!(ValueType::Bool(false).less(&ValueType::Bool(true), &fl));
    assert!(!ValueType::Bool(true).less(&ValueType::Bool(true), &fl));
}

#[test]
fn modes_by_label() {
    assert_eq!(ScanMode::from_name("Increased or Greater"), Some(ScanMode::IncreasedOrGreater));
    assert_eq!(ScanMode::from_name("Decreased by"), Some(ScanMode::DecreasedBy));
    assert_eq!(ScanMode::from_name("exact"), None);
    assert_eq!(ScanMode::DecreasedOrLess.name(), "Decreased or Less");
}
