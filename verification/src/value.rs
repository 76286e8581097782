//! Runtime values: the boxes that the interpreter computes with.

use vstd::prelude::*;

verus! {

/// A runtime value. Integers, booleans, strings, void and null are held by
/// value; instances, arrays and maps live in the interpreter's heap and are
/// held by their handle, so that every holder shares one object.
#[derive(Debug)]
pub enum NyashBox {
    IntegerBox(i64),
    BoolBox(bool),
    StringBox(String),
    VoidBox,
    NullBox,
    InstanceBox(usize),
    ArrayBox(usize),
    MapBox(usize),
}

/// What a value denotes, with each string taken as its characters.
pub ghost enum BoxSpec {
    IntegerBox(i64),
    BoolBox(bool),
    StringBox(Seq<char>),
    VoidBox,
    NullBox,
    InstanceBox(usize),
    ArrayBox(usize),
    MapBox(usize),
}

impl View for NyashBox {
    type V = BoxSpec;

    open spec fn view(&self) -> BoxSpec {
        match self {
            NyashBox::IntegerBox(i) => BoxSpec::IntegerBox(*i),
            NyashBox::BoolBox(b) => BoxSpec::BoolBox(*b),
            NyashBox::StringBox(s) => BoxSpec::StringBox(s@),
            NyashBox::VoidBox => BoxSpec::VoidBox,
            NyashBox::NullBox => BoxSpec::NullBox,
            NyashBox::InstanceBox(h) => BoxSpec::InstanceBox(*h),
            NyashBox::ArrayBox(h) => BoxSpec::ArrayBox(*h),
            NyashBox::MapBox(h) => BoxSpec::MapBox(*h),
        }
    }
}

/// The name of a value's type.
pub open spec fn box_type_name_spec(v: BoxSpec) -> Seq<char> {
    match v {
        BoxSpec::IntegerBox(_) => "IntegerBox"@,
        BoxSpec::BoolBox(_) => "BoolBox"@,
        BoxSpec::StringBox(_) => "StringBox"@,
        BoxSpec::VoidBox => "VoidBox"@,
        BoxSpec::NullBox => "NullBox"@,
        BoxSpec::InstanceBox(_) => "InstanceBox"@,
        BoxSpec::ArrayBox(_) => "ArrayBox"@,
        BoxSpec::MapBox(_) => "MapBox"@,
    }
}

impl NyashBox {
    /// A copy of the value; a heap object is shared, not copied.
    pub fn clone_box(&self) -> (r: NyashBox)
        ensures
            r == *self,
            r@ == self@,
    {
        match self {
            NyashBox::IntegerBox(i) => NyashBox::IntegerBox(*i),
            NyashBox::BoolBox(b) => NyashBox::BoolBox(*b),
            NyashBox::StringBox(s) => NyashBox::StringBox(s.clone()),
            NyashBox::VoidBox => NyashBox::VoidBox,
            NyashBox::NullBox => NyashBox::NullBox,
            NyashBox::InstanceBox(h) => NyashBox::InstanceBox(*h),
            NyashBox::ArrayBox(h) => NyashBox::ArrayBox(*h),
            NyashBox::MapBox(h) => NyashBox::MapBox(*h),
        }
    }

    /// The name of the value's type.
    pub fn box_type_name(&self) -> (r: String)
        ensures
            r@ == box_type_name_spec(self@),
    {
        match self {
            NyashBox::IntegerBox(_) => String::from_str("IntegerBox"),
            NyashBox::BoolBox(_) => String::from_str("BoolBox"),
            NyashBox::StringBox(_) => String::from_str("StringBox"),
            NyashBox::VoidBox => String::from_str("VoidBox"),
            NyashBox::NullBox => String::from_str("NullBox"),
            NyashBox::InstanceBox(_) => String::from_str("InstanceBox"),
            NyashBox::ArrayBox(_) => String::from_str("ArrayBox"),
            NyashBox::MapBox(_) => String::from_str("MapBox"),
        }
    }
}

} // verus!
