//! The DWARF index: base, pointer and const types keyed by their
//! debugging-information-entry offset, and subprograms with their formal
//! parameters and local variables, collected from plain entry records in
//! three ordered passes per compilation unit.
//!
//! The records hold, as plain values, what the index reads from each entry:
//! its tag, its offset within the unit, and its attributes with decoded
//! values. Reading the ELF image and walking the raw entry tree happen
//! outside this crate; everything from the records onward is verified.

use vstd::prelude::*;

use crate::exprloc::{parse_fbreg, spec_parse_fbreg};

verus! {

broadcast use vstd::std_specs::hash::group_hash_axioms;

/// Base-type encodings that matter here, by their DWARF code.
pub const DW_ATE_FLOAT: u16 = 0x04;

pub const DW_ATE_SIGNED: u16 = 0x05;

pub const DW_ATE_SIGNED_CHAR: u16 = 0x06;

pub const DW_ATE_SIGNED_FIXED: u16 = 0x0d;

/// The entry tags the index reacts to.
#[derive(Clone, Copy, PartialEq, Eq, Structural, Debug)]
pub enum DieTag {
    BaseType,
    PointerType,
    ConstType,
    Subprogram,
    FormalParameter,
    Variable,
    Other,
}

/// The attribute names the index reads.
#[derive(Clone, Copy, PartialEq, Eq, Structural, Debug)]
pub enum AttrName {
    Name,
    ByteSize,
    Encoding,
    Type,
    LowPc,
    HighPc,
    Location,
    Other,
}

/// A decoded attribute value: an unsigned constant, an address, a
/// unit-relative entry reference, a resolved name string, a base-type
/// encoding code, raw location-expression bytes, or anything else.
#[derive(Clone, PartialEq, Eq, Debug)]
pub enum AttrValue {
    Udata(u64),
    Addr(usize),
    UnitRef(usize),
    Name(String),
    Encoding(u16),
    Exprloc(Vec<u8>),
    Other,
}

/// One attribute of a debugging-information entry.
#[derive(Clone, Debug)]
pub struct DieAttr {
    pub name: AttrName,
    pub value: AttrValue,
}

/// One debugging-information entry: its tag, its offset within the unit
/// (the identity every type reference uses), and its attributes in order.
#[derive(Clone, Debug)]
pub struct DieRecord {
    pub tag: DieTag,
    pub offset: usize,
    pub attrs: Vec<DieAttr>,
}

/// The entries of one compilation unit, in depth-first pre-order.
#[derive(Clone, Debug)]
pub struct UnitDies {
    pub dies: Vec<DieRecord>,
}

/// A type as the index stores it, tagged by its entry offset. `to` refers
/// into the same type table; a reserved all-zero pointer entry stands for an
/// absent return type.
#[derive(Debug, Clone)]
pub enum Type {
    Base { name: String, is_float: bool, is_signed: bool, byte_size: u64, ref_addr: usize },
    Pointer { byte_size: u64, to: usize, ref_addr: usize },
    Const { byte_size: u64, to: usize, ref_addr: usize },
}

/// A formal parameter: its name, its type's entry offset, and the operand of
/// its frame-base-relative location expression.
#[derive(Debug, Clone)]
pub struct FormalParameter {
    pub name: String,
    pub t: usize,
    pub fbreg_offset: i64,
}

/// A local variable, shaped exactly like a formal parameter.
#[derive(Debug, Clone)]
pub struct Variable {
    pub name: String,
    pub t: usize,
    pub fbreg_offset: i64,
}

/// A subprogram: name, return type reference, arguments and locals in source
/// order, and its address ranges as inclusive `(low_pc, high_pc)` pairs.
#[derive(Debug, Clone)]
pub struct Function {
    pub name: String,
    pub t: usize,
    pub formal_parameters: Vec<FormalParameter>,
    pub local_variables: Vec<Variable>,
    pub address_range: Vec<(usize, usize)>,
}

/// Mathematical image of a `Type`.
pub ghost enum TypeV {
    Base { name: Seq<char>, is_float: bool, is_signed: bool, byte_size: u64, ref_addr: usize },
    Pointer { byte_size: u64, to: usize, ref_addr: usize },
    Const { byte_size: u64, to: usize, ref_addr: usize },
}

/// Mathematical image of a parameter or local variable.
pub ghost struct VarV {
    pub name: Seq<char>,
    pub t: usize,
    pub fbreg_offset: i64,
}

/// Mathematical image of a `Function`.
pub ghost struct FunctionV {
    pub name: Seq<char>,
    pub t: usize,
    pub formal_parameters: Seq<VarV>,
    pub local_variables: Seq<VarV>,
    pub address_range: Seq<(usize, usize)>,
}

impl View for Type {
    type V = TypeV;

    open spec fn view(&self) -> TypeV {
        match self {
            Type::Base { name, is_float, is_signed, byte_size, ref_addr } => TypeV::Base {
                name: name@,
                is_float: *is_float,
                is_signed: *is_signed,
                byte_size: *byte_size,
                ref_addr: *ref_addr,
            },
            Type::Pointer { byte_size, to, ref_addr } => TypeV::Pointer {
                byte_size: *byte_size,
                to: *to,
                ref_addr: *ref_addr,
            },
            Type::Const { byte_size, to, ref_addr } => TypeV::Const {
                byte_size: *byte_size,
                to: *to,
                ref_addr: *ref_addr,
            },
        }
    }
}

impl View for FormalParameter {
    type V = VarV;

    open spec fn view(&self) -> VarV {
        VarV { name: self.name@, t: self.t, fbreg_offset: self.fbreg_offset }
    }
}

impl View for Variable {
    type V = VarV;

    open spec fn view(&self) -> VarV {
        VarV { name: self.name@, t: self.t, fbreg_offset: self.fbreg_offset }
    }
}

impl View for Function {
    type V = FunctionV;

    open spec fn view(&self) -> FunctionV {
        FunctionV {
            name: self.name@,
            t: self.t,
            formal_parameters: self.formal_parameters@.map_values(|p: FormalParameter| p@),
            local_variables: self.local_variables@.map_values(|v: Variable| v@),
            address_range: self.address_range@,
        }
    }
}

/// Entry offset that a stored type is keyed by.
pub open spec fn typev_ref_addr(t: TypeV) -> usize {
    match t {
        TypeV::Base { ref_addr, .. } => ref_addr,
        TypeV::Pointer { ref_addr, .. } => ref_addr,
        TypeV::Const { ref_addr, .. } => ref_addr,
    }
}

/// Size in bytes of a value of a stored type.
pub open spec fn typev_byte_size(t: TypeV) -> u64 {
    match t {
        TypeV::Base { byte_size, .. } => byte_size,
        TypeV::Pointer { byte_size, .. } => byte_size,
        TypeV::Const { byte_size, .. } => byte_size,
    }
}

// What each attribute list decodes to. The last occurrence of an attribute
// wins, matching a single left-to-right walk; an occurrence whose value has
// the wrong form falls back as the walk does: a malformed name, byte size or
// location falls back to the default, any other malformed value leaves the
// earlier decoding in place. Decode issues are never fatal (the walk logs
// and continues).
/// The decoded name: the last name attribute's string, empty by default.
pub open spec fn spec_name_attr(attrs: Seq<DieAttr>) -> Seq<char>
    decreases attrs.len(),
{
    if attrs.len() == 0 {
        Seq::empty()
    } else if attrs.last().name is Name {
        match attrs.last().value {
            AttrValue::Name(s) => s@,
            _ => Seq::empty(),
        }
    } else {
        spec_name_attr(attrs.drop_last())
    }
}

/// The decoded byte size: the last byte-size attribute's unsigned value,
/// zero by default.
pub open spec fn spec_byte_size(attrs: Seq<DieAttr>) -> u64
    decreases attrs.len(),
{
    if attrs.len() == 0 {
        0
    } else if attrs.last().name is ByteSize {
        match attrs.last().value {
            AttrValue::Udata(v) => v,
            _ => 0,
        }
    } else {
        spec_byte_size(attrs.drop_last())
    }
}

/// Whether the encoding attribute names a signed integer encoding.
pub open spec fn spec_is_signed(attrs: Seq<DieAttr>) -> bool
    decreases attrs.len(),
{
    if attrs.len() == 0 {
        false
    } else if attrs.last().name is Encoding && attrs.last().value is Encoding {
        match attrs.last().value {
            AttrValue::Encoding(e) => e == DW_ATE_SIGNED || e == DW_ATE_SIGNED_CHAR || e
                == DW_ATE_SIGNED_FIXED,
            _ => false,
        }
    } else {
        spec_is_signed(attrs.drop_last())
    }
}

/// Whether the encoding attribute names the floating-point encoding.
pub open spec fn spec_is_float(attrs: Seq<DieAttr>) -> bool
    decreases attrs.len(),
{
    if attrs.len() == 0 {
        false
    } else if attrs.last().name is Encoding && attrs.last().value is Encoding {
        match attrs.last().value {
            AttrValue::Encoding(e) => e == DW_ATE_FLOAT,
            _ => false,
        }
    } else {
        spec_is_float(attrs.drop_last())
    }
}

/// The decoded type reference: the last type attribute's unit-relative
/// offset, zero by default.
pub open spec fn spec_type_ref(attrs: Seq<DieAttr>) -> usize
    decreases attrs.len(),
{
    if attrs.len() == 0 {
        0
    } else if attrs.last().name is Type && attrs.last().value is UnitRef {
        match attrs.last().value {
            AttrValue::UnitRef(o) => o,
            _ => 0,
        }
    } else {
        spec_type_ref(attrs.drop_last())
    }
}

/// The decoded entry low address, zero by default.
pub open spec fn spec_low_pc(attrs: Seq<DieAttr>) -> usize
    decreases attrs.len(),
{
    if attrs.len() == 0 {
        0
    } else if attrs.last().name is LowPc && attrs.last().value is Addr {
        match attrs.last().value {
            AttrValue::Addr(v) => v,
            _ => 0,
        }
    } else {
        spec_low_pc(attrs.drop_last())
    }
}

/// The high address when the high-pc attribute carries an address form.
pub open spec fn spec_high_pc_addr(attrs: Seq<DieAttr>) -> usize
    decreases attrs.len(),
{
    if attrs.len() == 0 {
        0
    } else if attrs.last().name is HighPc && attrs.last().value is Addr {
        match attrs.last().value {
            AttrValue::Addr(v) => v,
            _ => 0,
        }
    } else {
        spec_high_pc_addr(attrs.drop_last())
    }
}

/// The high-pc offset when the high-pc attribute carries an unsigned form.
pub open spec fn spec_high_offset(attrs: Seq<DieAttr>) -> Option<u64>
    decreases attrs.len(),
{
    if attrs.len() == 0 {
        None
    } else if attrs.last().name is HighPc && attrs.last().value is Udata {
        match attrs.last().value {
            AttrValue::Udata(v) => Some(v),
            _ => None,
        }
    } else {
        spec_high_offset(attrs.drop_last())
    }
}

/// The decoded frame-base offset: the operand of the last location
/// attribute's frame-base-relative expression, zero when the expression is
/// anything else or absent.
pub open spec fn spec_fbreg(attrs: Seq<DieAttr>) -> i64
    decreases attrs.len(),
{
    if attrs.len() == 0 {
        0
    } else if attrs.last().name is Location {
        match attrs.last().value {
            AttrValue::Exprloc(bytes) => match spec_parse_fbreg(bytes@) {
                Some(v) => v,
                None => 0,
            },
            _ => 0,
        }
    } else {
        spec_fbreg(attrs.drop_last())
    }
}

/// What a base-type entry is stored as.
pub open spec fn spec_base_type_v(rec: DieRecord) -> TypeV {
    TypeV::Base {
        name: spec_name_attr(rec.attrs@),
        is_float: spec_is_float(rec.attrs@),
        is_signed: spec_is_signed(rec.attrs@),
        byte_size: spec_byte_size(rec.attrs@),
        ref_addr: rec.offset,
    }
}

/// What a pointer-type entry is stored as.
pub open spec fn spec_pointer_type_v(rec: DieRecord) -> TypeV {
    TypeV::Pointer {
        byte_size: spec_byte_size(rec.attrs@),
        to: spec_type_ref(rec.attrs@),
        ref_addr: rec.offset,
    }
}

/// What a const-type entry is stored as.
pub open spec fn spec_const_type_v(rec: DieRecord) -> TypeV {
    TypeV::Const {
        byte_size: spec_byte_size(rec.attrs@),
        to: spec_type_ref(rec.attrs@),
        ref_addr: rec.offset,
    }
}

/// The stored inclusive high address of a subprogram: an address-form
/// high pc verbatim; an offset-form one as `low_pc + offset - 1` (the DWARF
/// contiguous-range rule), falling back to zero when that leaves the address
/// space.
pub open spec fn spec_subprogram_high(attrs: Seq<DieAttr>) -> usize {
    match spec_high_offset(attrs) {
        Some(n) => if 1 <= spec_low_pc(attrs) + n && spec_low_pc(attrs) + n - 1 <= usize::MAX {
            (spec_low_pc(attrs) + n - 1) as usize
        } else {
            0
        },
        None => spec_high_pc_addr(attrs),
    }
}

/// What a subprogram entry is stored as, before its parameters and locals
/// are attached.
pub open spec fn spec_function_v(rec: DieRecord) -> FunctionV {
    FunctionV {
        name: spec_name_attr(rec.attrs@),
        t: spec_type_ref(rec.attrs@),
        formal_parameters: Seq::empty(),
        local_variables: Seq::empty(),
        address_range: seq![(spec_low_pc(rec.attrs@), spec_subprogram_high(rec.attrs@))],
    }
}

/// What a parameter or variable entry is stored as.
pub open spec fn spec_var_v(rec: DieRecord) -> VarV {
    VarV {
        name: spec_name_attr(rec.attrs@),
        t: spec_type_ref(rec.attrs@),
        fbreg_offset: spec_fbreg(rec.attrs@),
    }
}

/// Reads a base-type entry (collection pass one).
pub fn process_base_type(rec: &DieRecord) -> (r: Type)
    ensures
        r@ == spec_base_type_v(*rec),
{
    let mut name = String::new();
    let mut byte_size: u64 = 0;
    let mut is_signed = false;
    let mut is_float = false;
    let mut i: usize = 0;
    while i < rec.attrs.len()
        invariant
            i <= rec.attrs@.len(),
            name@ == spec_name_attr(rec.attrs@.take(i as int)),
            byte_size == spec_byte_size(rec.attrs@.take(i as int)),
            is_signed == spec_is_signed(rec.attrs@.take(i as int)),
            is_float == spec_is_float(rec.attrs@.take(i as int)),
        decreases rec.attrs@.len() - i,
    {
        proof {
            assert(rec.attrs@.take(i + 1).drop_last() =~= rec.attrs@.take(i as int));
            assert(rec.attrs@.take(i + 1).last() == rec.attrs@[i as int]);
        }
        let a = &rec.attrs[i];
        match a.name {
            AttrName::Name => {
                match &a.value {
                    AttrValue::Name(s) => {
                        name = s.clone();
                    },
                    _ => {
                        name = String::new();
                    },
                }
            },
            AttrName::ByteSize => {
                match &a.value {
                    AttrValue::Udata(v) => {
                        byte_size = *v;
                    },
                    _ => {
                        byte_size = 0;
                    },
                }
            },
            AttrName::Encoding => {
                match &a.value {
                    AttrValue::Encoding(e) => {
                        is_signed = *e == DW_ATE_SIGNED || *e == DW_ATE_SIGNED_CHAR || *e
                            == DW_ATE_SIGNED_FIXED;
                        is_float = *e == DW_ATE_FLOAT;
                    },
                    _ => {},
                }
            },
            _ => {},
        }
        i = i + 1;
    }
    proof {
        assert(rec.attrs@.take(rec.attrs@.len() as int) =~= rec.attrs@);
    }
    Type::Base { name, is_float, is_signed, byte_size, ref_addr: rec.offset }
}

/// Reads the byte size and type reference shared by pointer- and const-type
/// entries (collection pass two).
fn read_size_and_ref(rec: &DieRecord) -> (r: (u64, usize))
    ensures
        r.0 == spec_byte_size(rec.attrs@),
        r.1 == spec_type_ref(rec.attrs@),
{
    let mut byte_size: u64 = 0;
    let mut to: usize = 0;
    let mut i: usize = 0;
    while i < rec.attrs.len()
        invariant
            i <= rec.attrs@.len(),
            byte_size == spec_byte_size(rec.attrs@.take(i as int)),
            to == spec_type_ref(rec.attrs@.take(i as int)),
        decreases rec.attrs@.len() - i,
    {
        proof {
            assert(rec.attrs@.take(i + 1).drop_last() =~= rec.attrs@.take(i as int));
            assert(rec.attrs@.take(i + 1).last() == rec.attrs@[i as int]);
        }
        let a = &rec.attrs[i];
        match a.name {
            AttrName::ByteSize => {
                match &a.value {
                    AttrValue::Udata(v) => {
                        byte_size = *v;
                    },
                    _ => {
                        byte_size = 0;
                    },
                }
            },
            AttrName::Type => {
                match &a.value {
                    AttrValue::UnitRef(o) => {
                        to = *o;
                    },
                    _ => {},
                }
            },
            _ => {},
        }
        i = i + 1;
    }
    proof {
        assert(rec.attrs@.take(rec.attrs@.len() as int) =~= rec.attrs@);
    }
    (byte_size, to)
}

/// Reads a pointer-type entry (collection pass two).
pub fn process_pointer_type(rec: &DieRecord) -> (r: Type)
    ensures
        r@ == spec_pointer_type_v(*rec),
{
    let (byte_size, to) = read_size_and_ref(rec);
    Type::Pointer { byte_size, to, ref_addr: rec.offset }
}

/// Reads a const-type entry (collection pass two).
pub fn process_const_type(rec: &DieRecord) -> (r: Type)
    ensures
        r@ == spec_const_type_v(*rec),
{
    let (byte_size, to) = read_size_and_ref(rec);
    Type::Const { byte_size, to, ref_addr: rec.offset }
}

impl Type {
    /// The reserved entry that stands for an absent return type: a
    /// zero-sized pointer at offset zero referring to offset zero.
    pub fn void() -> (r: Type)
        ensures
            r == (Type::Pointer { byte_size: 0u64, to: 0usize, ref_addr: 0usize }),
    {
        Type::Pointer { byte_size: 0, ref_addr: 0, to: 0 }
    }
}

/// Reads a subprogram entry (collection pass three), deriving its inclusive
/// high address by the contiguous-range rule when the high pc came as an
/// offset.
pub fn process_subprogram(rec: &DieRecord) -> (r: Function)
    ensures
        r@ == spec_function_v(*rec),
{
    let mut name = String::new();
    let mut t: usize = 0;
    let mut low_pc: usize = 0;
    let mut high_pc: usize = 0;
    let mut high_offset: Option<u64> = None;
    let mut i: usize = 0;
    while i < rec.attrs.len()
        invariant
            i <= rec.attrs@.len(),
            name@ == spec_name_attr(rec.attrs@.take(i as int)),
            t == spec_type_ref(rec.attrs@.take(i as int)),
            low_pc == spec_low_pc(rec.attrs@.take(i as int)),
            high_pc == spec_high_pc_addr(rec.attrs@.take(i as int)),
            high_offset == spec_high_offset(rec.attrs@.take(i as int)),
        decreases rec.attrs@.len() - i,
    {
        proof {
            assert(rec.attrs@.take(i + 1).drop_last() =~= rec.attrs@.take(i as int));
            assert(rec.attrs@.take(i + 1).last() == rec.attrs@[i as int]);
        }
        let a = &rec.attrs[i];
        match a.name {
            AttrName::Name => {
                match &a.value {
                    AttrValue::Name(s) => {
                        name = s.clone();
                    },
                    _ => {
                        name = String::new();
                    },
                }
            },
            AttrName::Type => {
                match &a.value {
                    AttrValue::UnitRef(o) => {
                        t = *o;
                    },
                    _ => {},
                }
            },
            AttrName::LowPc => {
                match &a.value {
                    AttrValue::Addr(v) => {
                        low_pc = *v;
                    },
                    _ => {},
                }
            },
            AttrName::HighPc => {
                match &a.value {
                    AttrValue::Addr(v) => {
                        high_pc = *v;
                    },
                    AttrValue::Udata(v) => {
                        high_offset = Some(*v);
                    },
                    _ => {},
                }
            },
            _ => {},
        }
        i = i + 1;
    }
    proof {
        assert(rec.attrs@.take(rec.attrs@.len() as int) =~= rec.attrs@);
    }
    let high = match high_offset {
        Some(n) => {
            let total: u128 = low_pc as u128 + n as u128;
            if 1 <= total && total - 1 <= usize::MAX as u128 {
                (total - 1) as usize
            } else {
                0
            }
        },
        None => high_pc,
    };
    let mut address_range: Vec<(usize, usize)> = Vec::new();
    address_range.push((low_pc, high));
    let r = Function {
        name,
        t,
        formal_parameters: Vec::new(),
        local_variables: Vec::new(),
        address_range,
    };
    proof {
        assert(r@.address_range =~= seq![
            (spec_low_pc(rec.attrs@), spec_subprogram_high(rec.attrs@)),
        ]);
        assert(r@.formal_parameters =~= Seq::<VarV>::empty());
        assert(r@.local_variables =~= Seq::<VarV>::empty());
    }
    r
}

/// Reads the name, type reference and frame-base offset shared by parameter
/// and variable entries (collection pass three).
fn read_var_fields(rec: &DieRecord) -> (r: (String, usize, i64))
    ensures
        r.0@ == spec_name_attr(rec.attrs@),
        r.1 == spec_type_ref(rec.attrs@),
        r.2 == spec_fbreg(rec.attrs@),
{
    let mut name = String::new();
    let mut t: usize = 0;
    let mut fbreg_offset: i64 = 0;
    let mut i: usize = 0;
    while i < rec.attrs.len()
        invariant
            i <= rec.attrs@.len(),
            name@ == spec_name_attr(rec.attrs@.take(i as int)),
            t == spec_type_ref(rec.attrs@.take(i as int)),
            fbreg_offset == spec_fbreg(rec.attrs@.take(i as int)),
        decreases rec.attrs@.len() - i,
    {
        proof {
            assert(rec.attrs@.take(i + 1).drop_last() =~= rec.attrs@.take(i as int));
            assert(rec.attrs@.take(i + 1).last() == rec.attrs@[i as int]);
        }
        let a = &rec.attrs[i];
        match a.name {
            AttrName::Name => {
                match &a.value {
                    AttrValue::Name(s) => {
                        name = s.clone();
                    },
                    _ => {
                        name = String::new();
                    },
                }
            },
            AttrName::Type => {
                match &a.value {
                    AttrValue::UnitRef(o) => {
                        t = *o;
                    },
                    _ => {},
                }
            },
            AttrName::Location => {
                match &a.value {
                    AttrValue::Exprloc(bytes) => {
                        fbreg_offset = match parse_fbreg(bytes) {
                            Some(v) => v,
                            None => 0,
                        };
                    },
                    _ => {
                        fbreg_offset = 0;
                    },
                }
            },
            _ => {},
        }
        i = i + 1;
    }
    proof {
        assert(rec.attrs@.take(rec.attrs@.len() as int) =~= rec.attrs@);
    }
    (name, t, fbreg_offset)
}

/// Reads a formal-parameter entry (collection pass three).
pub fn process_formal_parameter(rec: &DieRecord) -> (r: FormalParameter)
    ensures
        r@ == spec_var_v(*rec),
{
    let (name, t, fbreg_offset) = read_var_fields(rec);
    FormalParameter { name, t, fbreg_offset }
}

/// Reads a variable entry (collection pass three).
pub fn process_variable(rec: &DieRecord) -> (r: Variable)
    ensures
        r@ == spec_var_v(*rec),
{
    let (name, t, fbreg_offset) = read_var_fields(rec);
    Variable { name, t, fbreg_offset }
}


/// The base types a unit's entries yield, in entry order (pass one).
pub open spec fn base_types_of(dies: Seq<DieRecord>) -> Seq<TypeV>
    decreases dies.len(),
{
    if dies.len() == 0 {
        Seq::empty()
    } else if dies.last().tag is BaseType {
        base_types_of(dies.drop_last()).push(spec_base_type_v(dies.last()))
    } else {
        base_types_of(dies.drop_last())
    }
}

/// The pointer and const types a unit's entries yield, in entry order
/// (pass two).
pub open spec fn indirect_types_of(dies: Seq<DieRecord>) -> Seq<TypeV>
    decreases dies.len(),
{
    if dies.len() == 0 {
        Seq::empty()
    } else if dies.last().tag is PointerType {
        indirect_types_of(dies.drop_last()).push(spec_pointer_type_v(dies.last()))
    } else if dies.last().tag is ConstType {
        indirect_types_of(dies.drop_last()).push(spec_const_type_v(dies.last()))
    } else {
        indirect_types_of(dies.drop_last())
    }
}

/// All types a unit yields: base types first, then the indirections that
/// reference them.
pub open spec fn unit_types(dies: Seq<DieRecord>) -> Seq<TypeV> {
    base_types_of(dies) + indirect_types_of(dies)
}

/// How one entry advances pass three: a subprogram opens a new function;
/// a parameter or variable entry is appended to the open — most recently
/// pushed — function, in source order, and is dropped when no function is
/// open yet; everything else is skipped.
pub open spec fn push_die_function(fns: Seq<FunctionV>, rec: DieRecord) -> Seq<FunctionV> {
    if rec.tag is Subprogram {
        fns.push(spec_function_v(rec))
    } else if rec.tag is FormalParameter {
        if fns.len() > 0 {
            let f = fns.last();
            fns.update(
                fns.len() - 1,
                FunctionV { formal_parameters: f.formal_parameters.push(spec_var_v(rec)), ..f },
            )
        } else {
            fns
        }
    } else if rec.tag is Variable {
        if fns.len() > 0 {
            let f = fns.last();
            fns.update(
                fns.len() - 1,
                FunctionV { local_variables: f.local_variables.push(spec_var_v(rec)), ..f },
            )
        } else {
            fns
        }
    } else {
        fns
    }
}

/// The functions a unit yields, with their parameters and locals attached
/// (pass three).
pub open spec fn unit_functions(dies: Seq<DieRecord>) -> Seq<FunctionV>
    decreases dies.len(),
{
    if dies.len() == 0 {
        Seq::empty()
    } else {
        push_die_function(unit_functions(dies.drop_last()), dies.last())
    }
}

/// The types of all units, unit by unit.
pub open spec fn all_types(units: Seq<UnitDies>) -> Seq<TypeV>
    decreases units.len(),
{
    if units.len() == 0 {
        Seq::empty()
    } else {
        all_types(units.drop_last()) + unit_types(units.last().dies@)
    }
}

/// The functions of all units, unit by unit.
pub open spec fn all_functions(units: Seq<UnitDies>) -> Seq<FunctionV>
    decreases units.len(),
{
    if units.len() == 0 {
        Seq::empty()
    } else {
        all_functions(units.drop_last()) + unit_functions(units.last().dies@)
    }
}

/// A run of types folded into an offset-keyed table, starting from `m0`;
/// a later type at an already-taken offset overwrites the earlier one.
pub open spec fn type_map_ext(m0: Map<usize, TypeV>, s: Seq<TypeV>) -> Map<usize, TypeV>
    decreases s.len(),
{
    if s.len() == 0 {
        m0
    } else {
        type_map_ext(m0, s.drop_last()).insert(typev_ref_addr(s.last()), s.last())
    }
}

/// The offset-keyed table that a run of types denotes.
pub open spec fn type_map_of(s: Seq<TypeV>) -> Map<usize, TypeV> {
    type_map_ext(Map::empty(), s)
}

proof fn lemma_type_map_ext_concat(m0: Map<usize, TypeV>, a: Seq<TypeV>, b: Seq<TypeV>)
    ensures
        type_map_ext(m0, a + b) == type_map_ext(type_map_ext(m0, a), b),
    decreases b.len(),
{
    if b.len() == 0 {
        assert(a + b =~= a);
    } else {
        assert((a + b).drop_last() =~= a + b.drop_last());
        assert((a + b).last() == b.last());
        lemma_type_map_ext_concat(m0, a, b.drop_last());
    }
}

/// The image of an offset-keyed table of stored types.
pub open spec fn types_view(m: Map<usize, Type>) -> Map<usize, TypeV> {
    Map::new(|k: usize| m.contains_key(k), |k: usize| m[k]@)
}

/// The DWARF index: every collected type keyed by its entry offset, and the
/// collected functions in order.
pub struct GimliWrapper {
    pub types: std::collections::HashMap<usize, Type>,
    pub functions: Vec<Function>,
}

/// Collects a unit's types straight into the table: base types in a first
/// sweep over the entries, pointer and const types in a second, so that
/// every indirection's referent is already present.
fn insert_unit_types(types: &mut std::collections::HashMap<usize, Type>, dies: &Vec<DieRecord>)
    ensures
        types_view(final(types)@) == type_map_ext(types_view(old(types)@), unit_types(dies@)),
{
    let ghost before = types_view(old(types)@);
    let mut i: usize = 0;
    while i < dies.len()
        invariant
            i <= dies@.len(),
            types_view(types@) == type_map_ext(before, base_types_of(dies@.take(i as int))),
        decreases dies@.len() - i,
    {
        proof {
            assert(dies@.take(i + 1).drop_last() =~= dies@.take(i as int));
            assert(dies@.take(i + 1).last() == dies@[i as int]);
        }
        let rec = &dies[i];
        match rec.tag {
            DieTag::BaseType => {
                let t = process_base_type(rec);
                let ghost tv = t@;
                let ghost pre = types@;
                types.insert(rec.offset, t);
                proof {
                    assert(types_view(pre.insert(rec.offset, t)) =~= types_view(pre).insert(
                        rec.offset,
                        tv,
                    ));
                    let s = base_types_of(dies@.take(i as int));
                    assert(base_types_of(dies@.take(i + 1)) == s.push(tv));
                    assert(s.push(tv).drop_last() =~= s);
                    assert(s.push(tv).last() == tv);
                }
            },
            _ => {},
        }
        i = i + 1;
    }
    proof {
        assert(dies@.take(dies@.len() as int) =~= dies@);
    }
    let ghost mid = types_view(types@);
    let mut i: usize = 0;
    while i < dies.len()
        invariant
            i <= dies@.len(),
            mid == type_map_ext(before, base_types_of(dies@)),
            types_view(types@) == type_map_ext(mid, indirect_types_of(dies@.take(i as int))),
        decreases dies@.len() - i,
    {
        proof {
            assert(dies@.take(i + 1).drop_last() =~= dies@.take(i as int));
            assert(dies@.take(i + 1).last() == dies@[i as int]);
        }
        let rec = &dies[i];
        match rec.tag {
            DieTag::PointerType => {
                let t = process_pointer_type(rec);
                let ghost tv = t@;
                let ghost pre = types@;
                types.insert(rec.offset, t);
                proof {
                    assert(types_view(pre.insert(rec.offset, t)) =~= types_view(pre).insert(
                        rec.offset,
                        tv,
                    ));
                    let s = indirect_types_of(dies@.take(i as int));
                    assert(indirect_types_of(dies@.take(i + 1)) == s.push(tv));
                    assert(s.push(tv).drop_last() =~= s);
                    assert(s.push(tv).last() == tv);
                }
            },
            DieTag::ConstType => {
                let t = process_const_type(rec);
                let ghost tv = t@;
                let ghost pre = types@;
                types.insert(rec.offset, t);
                proof {
                    assert(types_view(pre.insert(rec.offset, t)) =~= types_view(pre).insert(
                        rec.offset,
                        tv,
                    ));
                    let s = indirect_types_of(dies@.take(i as int));
                    assert(indirect_types_of(dies@.take(i + 1)) == s.push(tv));
                    assert(s.push(tv).drop_last() =~= s);
                    assert(s.push(tv).last() == tv);
                }
            },
            _ => {},
        }
        i = i + 1;
    }
    proof {
        assert(dies@.take(dies@.len() as int) =~= dies@);
        lemma_type_map_ext_concat(before, base_types_of(dies@), indirect_types_of(dies@));
    }
}

/// Collects a unit's functions with their parameters and locals (pass
/// three): entries run in pre-order, so everything between one subprogram
/// and the next belongs to the former.
fn collect_unit_functions(dies: &Vec<DieRecord>) -> (r: Vec<Function>)
    ensures
        r@.map_values(|f: Function| f@) == unit_functions(dies@),
{
    let mut out: Vec<Function> = Vec::new();
    let mut i: usize = 0;
    while i < dies.len()
        invariant
            i <= dies@.len(),
            out@.map_values(|f: Function| f@) == unit_functions(dies@.take(i as int)),
        decreases dies@.len() - i,
    {
        proof {
            assert(dies@.take(i + 1).drop_last() =~= dies@.take(i as int));
            assert(dies@.take(i + 1).last() == dies@[i as int]);
        }
        let ghost prev = out@.map_values(|f: Function| f@);
        let rec = &dies[i];
        match rec.tag {
            DieTag::Subprogram => {
                let f = process_subprogram(rec);
                out.push(f);
                proof {
                    assert(out@.map_values(|f: Function| f@) =~= prev.push(
                        spec_function_v(dies@[i as int]),
                    ));
                }
            },
            DieTag::FormalParameter => {
                let fp = process_formal_parameter(rec);
                let ghost prev_vec = out@;
                match out.pop() {
                    Some(mut f) => {
                        let ghost fv = f@;
                        f.formal_parameters.push(fp);
                        out.push(f);
                        proof {
                            assert(fv == prev[prev.len() - 1]);
                            assert(f@.formal_parameters =~= fv.formal_parameters.push(
                                spec_var_v(dies@[i as int]),
                            ));
                            assert(out@.map_values(|f: Function| f@) =~= push_die_function(
                                prev,
                                dies@[i as int],
                            ));
                        }
                    },
                    None => {
                        proof {
                            assert(prev.len() == 0);
                        }
                    },
                }
            },
            DieTag::Variable => {
                let v = process_variable(rec);
                let ghost prev_vec = out@;
                match out.pop() {
                    Some(mut f) => {
                        let ghost fv = f@;
                        f.local_variables.push(v);
                        out.push(f);
                        proof {
                            assert(fv == prev[prev.len() - 1]);
                            assert(f@.local_variables =~= fv.local_variables.push(
                                spec_var_v(dies@[i as int]),
                            ));
                            assert(out@.map_values(|f: Function| f@) =~= push_die_function(
                                prev,
                                dies@[i as int],
                            ));
                        }
                    },
                    None => {
                        proof {
                            assert(prev.len() == 0);
                        }
                    },
                }
            },
            _ => {},
        }
        i = i + 1;
    }
    proof {
        assert(dies@.take(dies@.len() as int) =~= dies@);
    }
    out
}

impl GimliWrapper {
    /// The image of the type table.
    pub open spec fn types_v(self) -> Map<usize, TypeV> {
        types_view(self.types@)
    }

    /// The image of the function list.
    pub open spec fn functions_v(self) -> Seq<FunctionV> {
        self.functions@.map_values(|f: Function| f@)
    }

    /// Builds the index from the units' entry records: per unit, base types,
    /// then pointer and const types, then subprograms with their parameters
    /// and locals; every type keyed by its entry offset.
    pub fn create(units: &Vec<UnitDies>) -> (r: GimliWrapper)
        ensures
            r.types_v() == type_map_of(all_types(units@)),
            r.functions_v() == all_functions(units@),
    {
        let mut types: std::collections::HashMap<usize, Type> = std::collections::HashMap::new();
        let mut functions: Vec<Function> = Vec::new();
        let mut u: usize = 0;
        proof {
            assert(types_view(types@) =~= type_map_of(all_types(units@.take(0))));
            assert(functions@.map_values(|f: Function| f@) =~= all_functions(units@.take(0)));
        }
        while u < units.len()
            invariant
                u <= units@.len(),
                types_view(types@) == type_map_of(all_types(units@.take(u as int))),
                functions@.map_values(|f: Function| f@) == all_functions(units@.take(u as int)),
            decreases units@.len() - u,
        {
            proof {
                assert(units@.take(u + 1).drop_last() =~= units@.take(u as int));
                assert(units@.take(u + 1).last() == units@[u as int]);
            }
            let unit = &units[u];
            insert_unit_types(&mut types, &unit.dies);
            proof {
                lemma_type_map_ext_concat(
                    Map::empty(),
                    all_types(units@.take(u as int)),
                    unit_types(units@[u as int].dies@),
                );
                assert(all_types(units@.take(u as int)) + unit_types(units@[u as int].dies@)
                    =~= all_types(units@.take(u + 1)));
            }
            let mut fvec = collect_unit_functions(&unit.dies);
            let ghost ffront = functions@.map_values(|f: Function| f@);
            let ghost funit = fvec@.map_values(|f: Function| f@);
            functions.append(&mut fvec);
            proof {
                assert(functions@.map_values(|f: Function| f@) =~= ffront + funit);
                assert(ffront + unit_functions(units@[u as int].dies@) =~= all_functions(
                    units@.take(u + 1),
                ));
            }
            u = u + 1;
        }
        proof {
            assert(units@.take(units@.len() as int) =~= units@);
        }
        GimliWrapper { types, functions }
    }

    /// The first collected function with the given name, if any.
    pub fn get_function_by_name(&self, fname: &str) -> (r: Option<&Function>)
        ensures
            match r {
                Some(f) => spec_find_function(self.functions_v(), fname@) == Some(f@),
                None => spec_find_function(self.functions_v(), fname@) is None,
            },
    {
        let key = fname.to_owned();
        let ghost fs = self.functions_v();
        proof {
            assert(fs.skip(0) =~= fs);
        }
        let mut i: usize = 0;
        while i < self.functions.len()
            invariant
                i <= fs.len(),
                fs == self.functions_v(),
                key@ == fname@,
                spec_find_function(fs, fname@) == spec_find_function(fs.skip(i as int), fname@),
            decreases fs.len() - i,
        {
            let f = &self.functions[i];
            proof {
                assert(fs.skip(i as int)[0] == fs[i as int]);
                assert(fs.skip(i as int).skip(1) =~= fs.skip(i + 1));
                assert(fs[i as int] == f@);
            }
            if f.name == key {
                return Some(f);
            }
            i = i + 1;
        }
        proof {
            assert(fs.skip(fs.len() as int) =~= Seq::<FunctionV>::empty());
        }
        None
    }

    /// The collected type at entry offset `t`, if any.
    pub fn get_type(&self, t: usize) -> (r: Option<&Type>)
        ensures
            match r {
                Some(ty) => self.types_v().contains_key(t) && ty@ == self.types_v()[t],
                None => !self.types_v().contains_key(t),
            },
    {
        self.types.get(&t)
    }

    /// The byte size of the type at entry offset `t`, if it is known.
    pub fn get_type_byte_size(&self, t: usize) -> (r: Option<u64>)
        ensures
            r == if self.types_v().contains_key(t) {
                Some(typev_byte_size(self.types_v()[t]))
            } else {
                None::<u64>
            },
    {
        match self.get_type(t) {
            None => None,
            Some(ty) => match ty {
                Type::Base { byte_size, .. } => Some(*byte_size),
                Type::Pointer { byte_size, .. } => Some(*byte_size),
                Type::Const { byte_size, .. } => Some(*byte_size),
            },
        }
    }
}

/// The first function of the run whose name is `name`, if any: name lookup
/// walks the collected functions in order.
pub open spec fn spec_find_function(fs: Seq<FunctionV>, name: Seq<char>) -> Option<FunctionV>
    decreases fs.len(),
{
    if fs.len() == 0 {
        None
    } else if fs[0].name == name {
        Some(fs[0])
    } else {
        spec_find_function(fs.skip(1), name)
    }
}

/// Law: how a subprogram's stored high address derives from its attributes.
/// A high pc given as an offset `n` is stored as `low_pc + n - 1`, the
/// inclusive end of the contiguous range; one given as an address is stored
/// verbatim. (The guard keeps the derived address inside the address space;
/// outside it the collector stores the zero default.)
pub proof fn lemma_high_pc_derivation(attrs: Seq<DieAttr>)
    ensures
        (match spec_high_offset(attrs) {
            Some(n) => 1 <= spec_low_pc(attrs) + n && spec_low_pc(attrs) + n - 1 <= usize::MAX
                ==> spec_subprogram_high(attrs) == spec_low_pc(attrs) + n - 1,
            None => spec_subprogram_high(attrs) == spec_high_pc_addr(attrs),
        }),
{
}

/// Entry tags that declare a type.
pub open spec fn is_type_tag(t: DieTag) -> bool {
    t is BaseType || t is PointerType || t is ConstType
}

/// Entry tags that declare a parameter or local variable.
pub open spec fn is_var_tag(t: DieTag) -> bool {
    t is FormalParameter || t is Variable
}

/// The offsets at which a unit declares a type.
pub open spec fn unit_type_offsets(dies: Seq<DieRecord>) -> Set<usize> {
    Set::new(
        |o: usize|
            exists|i: int|
                0 <= i < dies.len() && is_type_tag(#[trigger] dies[i].tag) && dies[i].offset == o,
    )
}

/// A unit whose references resolve: every parameter or variable entry names
/// a type entry of the unit, and every pointer or const type entry names one
/// or the reserved offset zero.
pub open spec fn unit_refs_closed(dies: Seq<DieRecord>) -> bool {
    forall|i: int|
        #![trigger dies[i]]
        0 <= i < dies.len() ==> {
            &&& (is_var_tag(dies[i].tag) ==> unit_type_offsets(dies).contains(
                spec_type_ref(dies[i].attrs@),
            ))
            &&& ((dies[i].tag is PointerType || dies[i].tag is ConstType) ==> spec_type_ref(
                dies[i].attrs@,
            ) == 0 || unit_type_offsets(dies).contains(spec_type_ref(dies[i].attrs@)))
        }
}

proof fn lemma_type_map_ext_contains(m0: Map<usize, TypeV>, s: Seq<TypeV>, a: usize)
    ensures
        type_map_ext(m0, s).contains_key(a) <==> (m0.contains_key(a) || exists|i: int|
            0 <= i < s.len() && typev_ref_addr(#[trigger] s[i]) == a),
    decreases s.len(),
{
    if s.len() > 0 {
        lemma_type_map_ext_contains(m0, s.drop_last(), a);
        if typev_ref_addr(s.last()) == a {
            assert(typev_ref_addr(s[s.len() - 1]) == a);
        } else {
            if type_map_ext(m0, s).contains_key(a) && !m0.contains_key(a) {
                let i = choose|i: int|
                    0 <= i < s.drop_last().len() && typev_ref_addr(#[trigger] s.drop_last()[i])
                        == a;
                assert(typev_ref_addr(s[i]) == a);
            }
            if exists|i: int| 0 <= i < s.len() && typev_ref_addr(#[trigger] s[i]) == a {
                let i = choose|i: int| 0 <= i < s.len() && typev_ref_addr(#[trigger] s[i]) == a;
                assert(i < s.len() - 1);
                assert(typev_ref_addr(s.drop_last()[i]) == a);
            }
        }
    }
}

proof fn lemma_type_map_ext_values(m0: Map<usize, TypeV>, s: Seq<TypeV>, a: usize)
    requires
        type_map_ext(m0, s).contains_key(a),
    ensures
        (exists|i: int|
            0 <= i < s.len() && #[trigger] s[i] == type_map_ext(m0, s)[a] && typev_ref_addr(s[i])
                == a) || (m0.contains_key(a) && type_map_ext(m0, s)[a] == m0[a]),
    decreases s.len(),
{
    if s.len() > 0 {
        if typev_ref_addr(s.last()) == a {
            assert(s[s.len() - 1] == type_map_ext(m0, s)[a] && typev_ref_addr(s[s.len() - 1])
                == a);
        } else {
            lemma_type_map_ext_values(m0, s.drop_last(), a);
            if exists|i: int|
                0 <= i < s.drop_last().len() && #[trigger] s.drop_last()[i] == type_map_ext(
                    m0,
                    s.drop_last(),
                )[a] && typev_ref_addr(s.drop_last()[i]) == a {
                let i = choose|i: int|
                    0 <= i < s.drop_last().len() && #[trigger] s.drop_last()[i] == type_map_ext(
                        m0,
                        s.drop_last(),
                    )[a] && typev_ref_addr(s.drop_last()[i]) == a;
                assert(s[i] == type_map_ext(m0, s)[a] && typev_ref_addr(s[i]) == a);
            }
        }
    }
}

proof fn lemma_base_types_cover(dies: Seq<DieRecord>, j: int)
    requires
        0 <= j < dies.len(),
        dies[j].tag is BaseType,
    ensures
        exists|i: int|
            0 <= i < base_types_of(dies).len() && typev_ref_addr(#[trigger] base_types_of(dies)[i])
                == dies[j].offset,
    decreases dies.len(),
{
    if j == dies.len() - 1 {
        let n = base_types_of(dies).len();
        assert(typev_ref_addr(base_types_of(dies)[n - 1]) == dies[j].offset);
    } else {
        assert(dies.drop_last()[j] == dies[j]);
        lemma_base_types_cover(dies.drop_last(), j);
        let i = choose|i: int|
            0 <= i < base_types_of(dies.drop_last()).len() && typev_ref_addr(
                #[trigger] base_types_of(dies.drop_last())[i],
            ) == dies.drop_last()[j].offset;
        assert(typev_ref_addr(base_types_of(dies)[i]) == dies[j].offset);
    }
}

proof fn lemma_indirect_types_cover(dies: Seq<DieRecord>, j: int)
    requires
        0 <= j < dies.len(),
        dies[j].tag is PointerType || dies[j].tag is ConstType,
    ensures
        exists|i: int|
            0 <= i < indirect_types_of(dies).len() && typev_ref_addr(
                #[trigger] indirect_types_of(dies)[i],
            ) == dies[j].offset,
    decreases dies.len(),
{
    if j == dies.len() - 1 {
        let n = indirect_types_of(dies).len();
        assert(typev_ref_addr(indirect_types_of(dies)[n - 1]) == dies[j].offset);
    } else {
        assert(dies.drop_last()[j] == dies[j]);
        lemma_indirect_types_cover(dies.drop_last(), j);
        let i = choose|i: int|
            0 <= i < indirect_types_of(dies.drop_last()).len() && typev_ref_addr(
                #[trigger] indirect_types_of(dies.drop_last())[i],
            ) == dies.drop_last()[j].offset;
        assert(typev_ref_addr(indirect_types_of(dies)[i]) == dies[j].offset);
    }
}

proof fn lemma_unit_types_cover(dies: Seq<DieRecord>, o: usize)
    requires
        unit_type_offsets(dies).contains(o),
    ensures
        exists|i: int|
            0 <= i < unit_types(dies).len() && typev_ref_addr(#[trigger] unit_types(dies)[i]) == o,
{
    let j = choose|j: int|
        0 <= j < dies.len() && is_type_tag(#[trigger] dies[j].tag) && dies[j].offset == o;
    let nb = base_types_of(dies).len();
    if dies[j].tag is BaseType {
        lemma_base_types_cover(dies, j);
        let i = choose|i: int|
            0 <= i < base_types_of(dies).len() && typev_ref_addr(
                #[trigger] base_types_of(dies)[i],
            ) == dies[j].offset;
        assert(typev_ref_addr(unit_types(dies)[i]) == o);
    } else {
        lemma_indirect_types_cover(dies, j);
        let i = choose|i: int|
            0 <= i < indirect_types_of(dies).len() && typev_ref_addr(
                #[trigger] indirect_types_of(dies)[i],
            ) == dies[j].offset;
        assert(typev_ref_addr(unit_types(dies)[nb + i]) == o);
    }
}

proof fn lemma_all_types_cover(units: Seq<UnitDies>, u: int, o: usize)
    requires
        0 <= u < units.len(),
        unit_type_offsets(units[u].dies@).contains(o),
    ensures
        exists|i: int|
            0 <= i < all_types(units).len() && typev_ref_addr(#[trigger] all_types(units)[i]) == o,
    decreases units.len(),
{
    let np = all_types(units.drop_last()).len();
    if u == units.len() - 1 {
        lemma_unit_types_cover(units[u].dies@, o);
        let i = choose|i: int|
            0 <= i < unit_types(units[u].dies@).len() && typev_ref_addr(
                #[trigger] unit_types(units[u].dies@)[i],
            ) == o;
        assert(typev_ref_addr(all_types(units)[np + i]) == o);
    } else {
        assert(units.drop_last()[u] == units[u]);
        lemma_all_types_cover(units.drop_last(), u, o);
        let i = choose|i: int|
            0 <= i < all_types(units.drop_last()).len() && typev_ref_addr(
                #[trigger] all_types(units.drop_last())[i],
            ) == o;
        assert(typev_ref_addr(all_types(units)[i]) == o);
    }
}

proof fn lemma_all_functions_origin(units: Seq<UnitDies>, fi: int)
    requires
        0 <= fi < all_functions(units).len(),
    ensures
        exists|u: int, k: int|
            #![trigger unit_functions(units[u].dies@)[k]]
            0 <= u < units.len() && 0 <= k < unit_functions(units[u].dies@).len()
                && all_functions(units)[fi] == unit_functions(units[u].dies@)[k],
    decreases units.len(),
{
    let np = all_functions(units.drop_last()).len();
    if fi < np {
        lemma_all_functions_origin(units.drop_last(), fi);
        let (u, k): (int, int) = choose|u: int, k: int|
            #![trigger unit_functions(units.drop_last()[u].dies@)[k]]
            0 <= u < units.drop_last().len() && 0 <= k < unit_functions(
                units.drop_last()[u].dies@,
            ).len() && all_functions(units.drop_last())[fi] == unit_functions(
                units.drop_last()[u].dies@,
            )[k];
        assert(units[u] == units.drop_last()[u]);
        assert(all_functions(units)[fi] == unit_functions(units[u].dies@)[k]);
    } else {
        let u = units.len() - 1;
        let k = fi - np;
        assert(all_functions(units)[fi] == unit_functions(units[u].dies@)[k]);
    }
}

proof fn lemma_all_types_origin(units: Seq<UnitDies>, i: int)
    requires
        0 <= i < all_types(units).len(),
    ensures
        exists|u: int, k: int|
            #![trigger unit_types(units[u].dies@)[k]]
            0 <= u < units.len() && 0 <= k < unit_types(units[u].dies@).len()
                && all_types(units)[i] == unit_types(units[u].dies@)[k],
    decreases units.len(),
{
    let np = all_types(units.drop_last()).len();
    if i < np {
        lemma_all_types_origin(units.drop_last(), i);
        let (u, k): (int, int) = choose|u: int, k: int|
            #![trigger unit_types(units.drop_last()[u].dies@)[k]]
            0 <= u < units.drop_last().len() && 0 <= k < unit_types(
                units.drop_last()[u].dies@,
            ).len() && all_types(units.drop_last())[i] == unit_types(units.drop_last()[u].dies@)[k];
        assert(units[u] == units.drop_last()[u]);
        assert(all_types(units)[i] == unit_types(units[u].dies@)[k]);
    } else {
        let u = units.len() - 1;
        let k = i - np;
        assert(all_types(units)[i] == unit_types(units[u].dies@)[k]);
    }
}

proof fn lemma_base_types_origin(dies: Seq<DieRecord>, k: int)
    requires
        0 <= k < base_types_of(dies).len(),
    ensures
        exists|j: int|
            0 <= j < dies.len() && (#[trigger] dies[j].tag) is BaseType && base_types_of(dies)[k]
                == spec_base_type_v(dies[j]),
    decreases dies.len(),
{
    if dies.len() > 0 {
        if dies.last().tag is BaseType && k == base_types_of(dies).len() - 1 {
            assert(dies[dies.len() - 1].tag is BaseType && base_types_of(dies)[k]
                == spec_base_type_v(dies[dies.len() - 1]));
        } else {
            lemma_base_types_origin(dies.drop_last(), k);
            let j = choose|j: int|
                0 <= j < dies.drop_last().len() && (#[trigger] dies.drop_last()[j].tag)
                    is BaseType && base_types_of(dies.drop_last())[k] == spec_base_type_v(
                    dies.drop_last()[j],
                );
            assert(dies[j].tag is BaseType && base_types_of(dies)[k] == spec_base_type_v(dies[j]));
        }
    }
}

proof fn lemma_indirect_types_origin(dies: Seq<DieRecord>, k: int)
    requires
        0 <= k < indirect_types_of(dies).len(),
    ensures
        exists|j: int|
            #![trigger dies[j]]
            0 <= j < dies.len() && ((dies[j].tag is PointerType && indirect_types_of(dies)[k]
                == spec_pointer_type_v(dies[j])) || (dies[j].tag is ConstType && indirect_types_of(
                dies,
            )[k] == spec_const_type_v(dies[j]))),
    decreases dies.len(),
{
    if dies.len() > 0 {
        let isl = dies.last().tag is PointerType || dies.last().tag is ConstType;
        if isl && k == indirect_types_of(dies).len() - 1 {
            let j = dies.len() - 1;
            assert((dies[j].tag is PointerType && indirect_types_of(dies)[k]
                == spec_pointer_type_v(dies[j])) || (dies[j].tag is ConstType
                && indirect_types_of(dies)[k] == spec_const_type_v(dies[j])));
        } else {
            lemma_indirect_types_origin(dies.drop_last(), k);
            let j = choose|j: int|
                #![trigger dies.drop_last()[j]]
                0 <= j < dies.drop_last().len() && ((dies.drop_last()[j].tag is PointerType
                    && indirect_types_of(dies.drop_last())[k] == spec_pointer_type_v(
                    dies.drop_last()[j],
                )) || (dies.drop_last()[j].tag is ConstType && indirect_types_of(
                    dies.drop_last(),
                )[k] == spec_const_type_v(dies.drop_last()[j])));
            assert(dies.drop_last()[j] == dies[j]);
            assert((dies[j].tag is PointerType && indirect_types_of(dies)[k]
                == spec_pointer_type_v(dies[j])) || (dies[j].tag is ConstType
                && indirect_types_of(dies)[k] == spec_const_type_v(dies[j])));
        }
    }
}

proof fn lemma_unit_functions_refs(dies: Seq<DieRecord>, offs: Set<usize>)
    requires
        forall|i: int|
            #![trigger dies[i]]
            0 <= i < dies.len() && is_var_tag(dies[i].tag) ==> offs.contains(
                spec_type_ref(dies[i].attrs@),
            ),
    ensures
        forall|fi: int, pi: int|
            #![trigger unit_functions(dies)[fi].formal_parameters[pi]]
            0 <= fi < unit_functions(dies).len() && 0 <= pi
                < unit_functions(dies)[fi].formal_parameters.len() ==> offs.contains(
                unit_functions(dies)[fi].formal_parameters[pi].t,
            ),
        forall|fi: int, pi: int|
            #![trigger unit_functions(dies)[fi].local_variables[pi]]
            0 <= fi < unit_functions(dies).len() && 0 <= pi
                < unit_functions(dies)[fi].local_variables.len() ==> offs.contains(
                unit_functions(dies)[fi].local_variables[pi].t,
            ),
    decreases dies.len(),
{
    if dies.len() > 0 {
        assert(forall|i: int|
            #![trigger dies.drop_last()[i]]
            0 <= i < dies.drop_last().len() && is_var_tag(dies.drop_last()[i].tag)
                ==> offs.contains(spec_type_ref(dies.drop_last()[i].attrs@)));
        lemma_unit_functions_refs(dies.drop_last(), offs);
        let prev = unit_functions(dies.drop_last());
        let cur = unit_functions(dies);
        let rec = dies.last();
        assert(rec == dies[dies.len() - 1]);
        assert(cur == push_die_function(prev, rec));
        assert forall|fi: int, pi: int|
            0 <= fi < cur.len() && 0 <= pi
                < cur[fi].formal_parameters.len() implies offs.contains(
            #[trigger] cur[fi].formal_parameters[pi].t,
        ) by {
            if rec.tag is Subprogram {
                if fi < prev.len() {
                    assert(cur[fi] == prev[fi]);
                    assert(prev[fi].formal_parameters[pi].t == cur[fi].formal_parameters[pi].t);
                } else {
                    assert(cur[fi] == spec_function_v(rec));
                }
            } else if rec.tag is FormalParameter && prev.len() > 0 {
                if fi < prev.len() - 1 {
                    assert(cur[fi] == prev[fi]);
                    assert(prev[fi].formal_parameters[pi].t == cur[fi].formal_parameters[pi].t);
                } else {
                    let f = prev[prev.len() - 1];
                    assert(cur[fi].formal_parameters == f.formal_parameters.push(spec_var_v(rec)));
                    if pi < f.formal_parameters.len() {
                        assert(cur[fi].formal_parameters[pi] == f.formal_parameters[pi]);
                    } else {
                        assert(cur[fi].formal_parameters[pi] == spec_var_v(rec));
                        assert(is_var_tag(rec.tag));
                    }
                }
            } else if rec.tag is Variable && prev.len() > 0 {
                if fi < prev.len() - 1 {
                    assert(cur[fi] == prev[fi]);
                    assert(prev[fi].formal_parameters[pi].t == cur[fi].formal_parameters[pi].t);
                } else {
                    let f = prev[prev.len() - 1];
                    assert(cur[fi].formal_parameters == f.formal_parameters);
                    assert(prev[fi].formal_parameters[pi].t == cur[fi].formal_parameters[pi].t);
                }
            } else {
                assert(cur == prev);
                assert(prev[fi].formal_parameters[pi].t == cur[fi].formal_parameters[pi].t);
            }
        }
        assert forall|fi: int, pi: int|
            0 <= fi < cur.len() && 0 <= pi < cur[fi].local_variables.len() implies offs.contains(
            #[trigger] cur[fi].local_variables[pi].t,
        ) by {
            if rec.tag is Subprogram {
                if fi < prev.len() {
                    assert(cur[fi] == prev[fi]);
                    assert(prev[fi].local_variables[pi].t == cur[fi].local_variables[pi].t);
                } else {
                    assert(cur[fi] == spec_function_v(rec));
                }
            } else if rec.tag is Variable && prev.len() > 0 {
                if fi < prev.len() - 1 {
                    assert(cur[fi] == prev[fi]);
                    assert(prev[fi].local_variables[pi].t == cur[fi].local_variables[pi].t);
                } else {
                    let f = prev[prev.len() - 1];
                    assert(cur[fi].local_variables == f.local_variables.push(spec_var_v(rec)));
                    if pi < f.local_variables.len() {
                        assert(cur[fi].local_variables[pi] == f.local_variables[pi]);
                    } else {
                        assert(cur[fi].local_variables[pi] == spec_var_v(rec));
                        assert(is_var_tag(rec.tag));
                    }
                }
            } else if rec.tag is FormalParameter && prev.len() > 0 {
                if fi < prev.len() - 1 {
                    assert(cur[fi] == prev[fi]);
                    assert(prev[fi].local_variables[pi].t == cur[fi].local_variables[pi].t);
                } else {
                    let f = prev[prev.len() - 1];
                    assert(cur[fi].local_variables == f.local_variables);
                    assert(prev[fi].local_variables[pi].t == cur[fi].local_variables[pi].t);
                }
            } else {
                assert(cur == prev);
                assert(prev[fi].local_variables[pi].t == cur[fi].local_variables[pi].t);
            }
        }
    }
}

/// Law: type closure of the built index. When every unit's references
/// resolve — each parameter or variable entry names a type entry of its
/// unit, and each pointer or const type entry names one or the reserved
/// offset zero — then in the built index the type lookup of every formal
/// parameter and local variable succeeds, and every pointer or const type's
/// referent lookup succeeds or is the reserved zero.
pub proof fn lemma_type_closure(units: Seq<UnitDies>)
    requires
        forall|u: int| 0 <= u < units.len() ==> unit_refs_closed(#[trigger] units[u].dies@),
    ensures
        forall|fi: int, pi: int|
            #![trigger all_functions(units)[fi].formal_parameters[pi]]
            0 <= fi < all_functions(units).len() && 0 <= pi
                < all_functions(units)[fi].formal_parameters.len() ==> type_map_of(
                all_types(units),
            ).contains_key(all_functions(units)[fi].formal_parameters[pi].t),
        forall|fi: int, pi: int|
            #![trigger all_functions(units)[fi].local_variables[pi]]
            0 <= fi < all_functions(units).len() && 0 <= pi
                < all_functions(units)[fi].local_variables.len() ==> type_map_of(
                all_types(units),
            ).contains_key(all_functions(units)[fi].local_variables[pi].t),
        forall|o: usize|
            #[trigger] type_map_of(all_types(units)).contains_key(o) ==> (match type_map_of(
                all_types(units),
            )[o] {
                TypeV::Pointer { to, .. } => to == 0 || type_map_of(all_types(units)).contains_key(
                    to,
                ),
                TypeV::Const { to, .. } => to == 0 || type_map_of(all_types(units)).contains_key(
                    to,
                ),
                TypeV::Base { .. } => true,
            }),
{
    let m = type_map_of(all_types(units));
    let fns = all_functions(units);
    assert forall|fi: int, pi: int|
        0 <= fi < fns.len() && 0 <= pi < fns[fi].formal_parameters.len() implies m.contains_key(
        #[trigger] fns[fi].formal_parameters[pi].t,
    ) by {
        lemma_all_functions_origin(units, fi);
        let (u, k): (int, int) = choose|u: int, k: int|
            #![trigger unit_functions(units[u].dies@)[k]]
            0 <= u < units.len() && 0 <= k < unit_functions(units[u].dies@).len()
                && fns[fi] == unit_functions(units[u].dies@)[k];
        lemma_unit_functions_refs(units[u].dies@, unit_type_offsets(units[u].dies@));
        let t = fns[fi].formal_parameters[pi].t;
        assert(unit_type_offsets(units[u].dies@).contains(t));
        lemma_all_types_cover(units, u, t);
        lemma_type_map_ext_contains(Map::empty(), all_types(units), t);
    }
    assert forall|fi: int, pi: int|
        0 <= fi < fns.len() && 0 <= pi < fns[fi].local_variables.len() implies m.contains_key(
        #[trigger] fns[fi].local_variables[pi].t,
    ) by {
        lemma_all_functions_origin(units, fi);
        let (u, k): (int, int) = choose|u: int, k: int|
            #![trigger unit_functions(units[u].dies@)[k]]
            0 <= u < units.len() && 0 <= k < unit_functions(units[u].dies@).len()
                && fns[fi] == unit_functions(units[u].dies@)[k];
        lemma_unit_functions_refs(units[u].dies@, unit_type_offsets(units[u].dies@));
        let t = fns[fi].local_variables[pi].t;
        assert(unit_type_offsets(units[u].dies@).contains(t));
        lemma_all_types_cover(units, u, t);
        lemma_type_map_ext_contains(Map::empty(), all_types(units), t);
    }
    assert forall|o: usize| #[trigger] m.contains_key(o) implies (match m[o] {
        TypeV::Pointer { to, .. } => to == 0 || m.contains_key(to),
        TypeV::Const { to, .. } => to == 0 || m.contains_key(to),
        TypeV::Base { .. } => true,
    }) by {
        lemma_type_map_ext_values(Map::empty(), all_types(units), o);
        let i = choose|i: int|
            0 <= i < all_types(units).len() && #[trigger] all_types(units)[i] == m[o]
                && typev_ref_addr(all_types(units)[i]) == o;
        lemma_all_types_origin(units, i);
        let (u, k): (int, int) = choose|u: int, k: int|
            #![trigger unit_types(units[u].dies@)[k]]
            0 <= u < units.len() && 0 <= k < unit_types(units[u].dies@).len()
                && all_types(units)[i] == unit_types(units[u].dies@)[k];
        let dies = units[u].dies@;
        let nb = base_types_of(dies).len();
        if k < nb {
            lemma_base_types_origin(dies, k);
            assert(m[o] is Base);
        } else {
            assert(unit_types(dies)[k] == indirect_types_of(dies)[k - nb]);
            lemma_indirect_types_origin(dies, k - nb);
            let j = choose|j: int|
                #![trigger dies[j]]
                0 <= j < dies.len() && ((dies[j].tag is PointerType && indirect_types_of(dies)[k
                    - nb] == spec_pointer_type_v(dies[j])) || (dies[j].tag is ConstType
                    && indirect_types_of(dies)[k - nb] == spec_const_type_v(dies[j])));
            let to = spec_type_ref(dies[j].attrs@);
            if to != 0 {
                assert(unit_type_offsets(dies).contains(to));
                lemma_all_types_cover(units, u, to);
                lemma_type_map_ext_contains(Map::empty(), all_types(units), to);
            }
        }
    }
}

} // verus!
