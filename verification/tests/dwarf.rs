use mini_dbg::exprloc::parse_fbreg;
use mini_dbg::gimliwrapper::{
    process_subprogram, AttrName, AttrValue, DieAttr, DieRecord, DieTag, GimliWrapper, Type,
    UnitDies,
};

fn attr(name: AttrName, value: AttrValue) -> DieAttr {
    DieAttr { name, value }
}

fn die(tag: DieTag, offset: usize, attrs: Vec<DieAttr>) -> DieRecord {
    DieRecord { tag, offset, attrs }
}

fn name_attr(s: &str) -> DieAttr {
    attr(AttrName::Name, AttrValue::Name(String::from(s)))
}

/// A unit shaped like `int main(){int x=3; return x;}` compiled with debug
/// info: one base type, one subprogram, one local.
fn main_unit() -> UnitDies {
    UnitDies {
        dies: vec![
            die(DieTag::Other, 0x0b, vec![]),
            die(
                DieTag::Subprogram,
                0x1d,
                vec![
                    name_attr("main"),
                    attr(AttrName::LowPc, AttrValue::Addr(0x1129)),
                    attr(AttrName::HighPc, AttrValue::Udata(0x20)),
                    attr(AttrName::Type, AttrValue::UnitRef(0x3a)),
                ],
            ),
            die(
                DieTag::Variable,
                0x2e,
                vec![
                    name_attr("x"),
                    attr(AttrName::Type, AttrValue::UnitRef(0x3a)),
                    attr(AttrName::Location, AttrValue::Exprloc(vec![0x91, 0x6c])),
                ],
            ),
            die(
                DieTag::BaseType,
                0x3a,
                vec![
                    name_attr("int"),
                    attr(AttrName::ByteSize, AttrValue::Udata(4)),
                    attr(AttrName::Encoding, AttrValue::Encoding(0x05)),
                ],
            ),
        ],
    }
}

#[test]
fn collects_base_type_with_encoding() {
    let index = GimliWrapper::create(&vec![main_unit()]);
    match index.get_type(0x3a) {
        Some(Type::Base { name, is_float, is_signed, byte_size, ref_addr }) => {
            assert_eq!(name, "int");
            assert!(*is_signed);
            assert!(!*is_float);
            assert_eq!(*byte_size, 4);
            assert_eq!(*ref_addr, 0x3a);
        }
        other => panic!("expected a base type, got {:?}", other),
    }
    assert_eq!(index.get_type_byte_size(0x3a), Some(4));
    assert!(index.get_type(0x99).is_none());
    assert_eq!(index.get_type_byte_size(0x99), None);
}

#[test]
fn high_pc_offset_form_derives_inclusive_end() {
    // Offset form: high_pc == low_pc + n - 1.
    let rec = die(
        DieTag::Subprogram,
        0x1d,
        vec![
            name_attr("main"),
            attr(AttrName::LowPc, AttrValue::Addr(0x1129)),
            attr(AttrName::HighPc, AttrValue::Udata(0x20)),
        ],
    );
    let f = process_subprogram(&rec);
    assert_eq!(f.address_range, vec![(0x1129, 0x1129 + 0x20 - 1)]);
}

#[test]
fn high_pc_address_form_is_verbatim() {
    let rec = die(
        DieTag::Subprogram,
        0x1d,
        vec![
            name_attr("f"),
            attr(AttrName::LowPc, AttrValue::Addr(0x4000)),
            attr(AttrName::HighPc, AttrValue::Addr(0x4037)),
        ],
    );
    let f = process_subprogram(&rec);
    assert_eq!(f.address_range, vec![(0x4000, 0x4037)]);
}

#[test]
fn subprogram_without_high_pc_defaults_to_zero() {
    let rec = die(
        DieTag::Subprogram,
        0x1d,
        vec![name_attr("f"), attr(AttrName::LowPc, AttrValue::Addr(0x4000))],
    );
    let f = process_subprogram(&rec);
    assert_eq!(f.address_range, vec![(0x4000, 0)]);
}

#[test]
fn variable_gets_type_and_frame_offset() {
    let index = GimliWrapper::create(&vec![main_unit()]);
    let main = index.get_function_by_name("main").expect("main exists");
    assert_eq!(main.name, "main");
    assert_eq!(main.t, 0x3a);
    assert_eq!(main.formal_parameters.len(), 0);
    assert_eq!(main.local_variables.len(), 1);
    let x = &main.local_variables[0];
    assert_eq!(x.name, "x");
    assert_eq!(x.t, 0x3a);
    assert_eq!(x.fbreg_offset, -20);
}

#[test]
fn lookup_by_name_misses_unknown_functions() {
    let index = GimliWrapper::create(&vec![main_unit()]);
    assert!(index.get_function_by_name("start").is_none());
}

#[test]
fn pointer_type_resolves_across_passes() {
    // The pointer entry stands before the base entry it references; the
    // two-sweep order still resolves it.
    let unit = UnitDies {
        dies: vec![
            die(
                DieTag::PointerType,
                0x10,
                vec![
                    attr(AttrName::ByteSize, AttrValue::Udata(8)),
                    attr(AttrName::Type, AttrValue::UnitRef(0x20)),
                ],
            ),
            die(
                DieTag::BaseType,
                0x20,
                vec![
                    name_attr("char"),
                    attr(AttrName::ByteSize, AttrValue::Udata(1)),
                    attr(AttrName::Encoding, AttrValue::Encoding(0x06)),
                ],
            ),
            die(
                DieTag::ConstType,
                0x30,
                vec![attr(AttrName::Type, AttrValue::UnitRef(0x10))],
            ),
        ],
    };
    let index = GimliWrapper::create(&vec![unit]);
    match index.get_type(0x10) {
        Some(Type::Pointer { byte_size, to, ref_addr }) => {
            assert_eq!((*byte_size, *to, *ref_addr), (8, 0x20, 0x10));
        }
        other => panic!("expected a pointer type, got {:?}", other),
    }
    match index.get_type(0x30) {
        Some(Type::Const { byte_size, to, ref_addr }) => {
            assert_eq!((*byte_size, *to, *ref_addr), (0, 0x10, 0x30));
        }
        other => panic!("expected a const type, got {:?}", other),
    }
    // Type closure on this unit: every referent resolves.
    match index.get_type(0x10) {
        Some(Type::Pointer { to, .. }) => assert!(index.get_type(*to).is_some()),
        _ => unreachable!(),
    }
}

#[test]
fn parameters_and_locals_attach_to_open_function() {
    // void a(int p){} void b(){int q;} — entries in pre-order; everything
    // between two subprograms belongs to the first.
    let unit = UnitDies {
        dies: vec![
            die(
                DieTag::BaseType,
                0x08,
                vec![name_attr("int"), attr(AttrName::ByteSize, AttrValue::Udata(4))],
            ),
            die(
                DieTag::Subprogram,
                0x10,
                vec![name_attr("a"), attr(AttrName::LowPc, AttrValue::Addr(0x1000))],
            ),
            die(
                DieTag::FormalParameter,
                0x18,
                vec![name_attr("p"), attr(AttrName::Type, AttrValue::UnitRef(0x08))],
            ),
            die(
                DieTag::Subprogram,
                0x20,
                vec![name_attr("b"), attr(AttrName::LowPc, AttrValue::Addr(0x2000))],
            ),
            die(
                DieTag::Variable,
                0x28,
                vec![name_attr("q"), attr(AttrName::Type, AttrValue::UnitRef(0x08))],
            ),
        ],
    };
    let index = GimliWrapper::create(&vec![unit]);
    let a = index.get_function_by_name("a").unwrap();
    assert_eq!(a.formal_parameters.len(), 1);
    assert_eq!(a.formal_parameters[0].name, "p");
    assert_eq!(a.local_variables.len(), 0);
    let b = index.get_function_by_name("b").unwrap();
    assert_eq!(b.formal_parameters.len(), 0);
    assert_eq!(b.local_variables.len(), 1);
    assert_eq!(b.local_variables[0].name, "q");
}

#[test]
fn orphan_variable_before_any_subprogram_is_dropped() {
    let unit = UnitDies {
        dies: vec![die(DieTag::Variable, 0x08, vec![name_attr("g")])],
    };
    let index = GimliWrapper::create(&vec![unit]);
    assert!(index.get_function_by_name("g").is_none());
    assert_eq!(index.functions.len(), 0);
}

#[test]
fn void_is_the_reserved_zero_pointer() {
    match Type::void() {
        Type::Pointer { byte_size, to, ref_addr } => {
            assert_eq!((byte_size, to, ref_addr), (0, 0, 0));
        }
        other => panic!("expected a pointer, got {:?}", other),
    }
}

#[test]
fn fbreg_expression_decodes_signed_offset() {
    assert_eq!(parse_fbreg(&vec![0x91, 0x6c]), Some(-20));
    assert_eq!(parse_fbreg(&vec![0x91, 0x7c]), Some(-4));
    assert_eq!(parse_fbreg(&vec![0x91, 0x2a]), Some(42));
    assert_eq!(parse_fbreg(&vec![0x91, 0x80, 0x01]), Some(128));
    assert_eq!(parse_fbreg(&vec![0x91, 0xc0, 0x7e]), Some(-192));
}

#[test]
fn fbreg_rejects_other_expressions() {
    // Not the frame-base operation.
    assert_eq!(parse_fbreg(&vec![0x03, 0x10, 0x00]), None);
    // Missing or unterminated operand.
    assert_eq!(parse_fbreg(&vec![0x91]), None);
    assert_eq!(parse_fbreg(&vec![0x91, 0x80, 0x80]), None);
    assert_eq!(parse_fbreg(&vec![]), None);
}

#[test]
fn unsupported_location_expression_defaults_to_zero() {
    let rec = die(
        DieTag::Variable,
        0x2e,
        vec![
            name_attr("x"),
            attr(AttrName::Location, AttrValue::Exprloc(vec![0x03, 0x00])),
        ],
    );
    let unit = UnitDies {
        dies: vec![
            die(DieTag::Subprogram, 0x10, vec![name_attr("f")]),
            rec,
        ],
    };
    let index = GimliWrapper::create(&vec![unit]);
    let f = index.get_function_by_name("f").unwrap();
    assert_eq!(f.local_variables[0].fbreg_offset, 0);
}

#[test]
fn lookup_by_name_takes_the_first_match() {
    let unit = UnitDies {
        dies: vec![
            die(
                DieTag::Subprogram,
                0x10,
                vec![name_attr("f"), attr(AttrName::LowPc, AttrValue::Addr(0x1000))],
            ),
            die(
                DieTag::Subprogram,
                0x20,
                vec![name_attr("f"), attr(AttrName::LowPc, AttrValue::Addr(0x2000))],
            ),
        ],
    };
    let index = GimliWrapper::create(&vec![unit]);
    let f = index.get_function_by_name("f").unwrap();
    assert_eq!(f.address_range[0].0, 0x1000);
}

#[test]
fn later_unit_functions_follow_earlier_ones() {
    let u1 = UnitDies {
        dies: vec![die(DieTag::Subprogram, 0x10, vec![name_attr("a")])],
    };
    let u2 = UnitDies {
        dies: vec![die(DieTag::Subprogram, 0x10, vec![name_attr("b")])],
    };
    let index = GimliWrapper::create(&vec![u1, u2]);
    assert_eq!(index.functions.len(), 2);
    assert_eq!(index.functions[0].name, "a");
    assert_eq!(index.functions[1].name, "b");
}
