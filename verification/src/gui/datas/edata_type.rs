//! The data types that a column or a key-value row can declare.
use crate::common::text::{chars_of, spells};
use vstd::prelude::*;

verus! {

/// A column's declared data type.
#[derive(Debug, Clone, Copy, PartialEq, Eq, Structural)]
pub enum EDataType {
    /// Not a known type name.
    Unknown,
    /// `int`
    Int,
    /// `long` (64-bit)
    Long,
    /// `string`
    String,
    /// `bool`
    Boolean,
    /// `float`
    Float,
    /// `vector2`
    Vector2,
    /// `vector3`
    Vector3,
    /// `vector4`
    Vector4,
    /// `int[]`
    IntArr,
    /// `long[]`
    LongArr,
    /// `string[]`
    StringArr,
    /// `bool[]`
    BooleanArr,
    /// `float[]`
    FloatArr,
    /// `vector2[]`
    Vector2Arr,
    /// `vector3[]`
    Vector3Arr,
    /// `vector4[]`
    Vector4Arr,
    /// `%`: a percentage
    Percentage,
    /// `‰`: a per-mille value
    Permillage,
    /// `‱`: a per-ten-thousand value
    Permian,
    /// `time`: seconds within a day
    Time,
    /// `date`: seconds since the spreadsheet epoch
    Date,
    /// `enum`: a value of a linked enum table
    Enum,
    /// `loc`: a key of a linked localisation table
    Loc,
}

/// The data type that a type cell's text names; the empty text names
/// `string`, and any unlisted text is `Unknown`.
pub open spec fn data_type_of(s: Seq<char>) -> EDataType {
    if s.len() == 0 { EDataType::String }
    else if s == "string"@ { EDataType::String }
    else if s == "int"@ { EDataType::Int }
    else if s == "long"@ { EDataType::Long }
    else if s == "bool"@ { EDataType::Boolean }
    else if s == "float"@ { EDataType::Float }
    else if s == "vector2"@ { EDataType::Vector2 }
    else if s == "vector3"@ { EDataType::Vector3 }
    else if s == "vector4"@ { EDataType::Vector4 }
    else if s == "string[]"@ { EDataType::StringArr }
    else if s == "int[]"@ { EDataType::IntArr }
    else if s == "long[]"@ { EDataType::LongArr }
    else if s == "bool[]"@ { EDataType::BooleanArr }
    else if s == "float[]"@ { EDataType::FloatArr }
    else if s == "vector2[]"@ { EDataType::Vector2Arr }
    else if s == "vector3[]"@ { EDataType::Vector3Arr }
    else if s == "vector4[]"@ { EDataType::Vector4Arr }
    else if s == "%"@ { EDataType::Percentage }
    else if s == "‰"@ { EDataType::Permillage }
    else if s == "‱"@ { EDataType::Permian }
    else if s == "time"@ { EDataType::Time }
    else if s == "date"@ { EDataType::Date }
    else if s == "enum"@ { EDataType::Enum }
    else if s == "loc"@ { EDataType::Loc }
    else { EDataType::Unknown }
}

impl EDataType {
    /// Reads a type cell's text as a data type.
    pub fn convert(value: &str) -> (t: EDataType)
        ensures
            t == data_type_of(value@),
    {
        let v = chars_of(value);
        let s = v.as_slice();
        if v.len() == 0 { EDataType::String }
        else if spells(s, "string") { EDataType::String }
        else if spells(s, "int") { EDataType::Int }
        else if spells(s, "long") { EDataType::Long }
        else if spells(s, "bool") { EDataType::Boolean }
        else if spells(s, "float") { EDataType::Float }
        else if spells(s, "vector2") { EDataType::Vector2 }
        else if spells(s, "vector3") { EDataType::Vector3 }
        else if spells(s, "vector4") { EDataType::Vector4 }
        else if spells(s, "string[]") { EDataType::StringArr }
        else if spells(s, "int[]") { EDataType::IntArr }
        else if spells(s, "long[]") { EDataType::LongArr }
        else if spells(s, "bool[]") { EDataType::BooleanArr }
        else if spells(s, "float[]") { EDataType::FloatArr }
        else if spells(s, "vector2[]") { EDataType::Vector2Arr }
        else if spells(s, "vector3[]") { EDataType::Vector3Arr }
        else if spells(s, "vector4[]") { EDataType::Vector4Arr }
        else if spells(s, "%") { EDataType::Percentage }
        else if spells(s, "‰") { EDataType::Permillage }
        else if spells(s, "‱") { EDataType::Permian }
        else if spells(s, "time") { EDataType::Time }
        else if spells(s, "date") { EDataType::Date }
        else if spells(s, "enum") { EDataType::Enum }
        else if spells(s, "loc") { EDataType::Loc }
        else { EDataType::Unknown }
    }
}

} // verus!
