//! The formats that data can be exported to.
use vstd::prelude::*;

verus! {

/// An export format.
#[derive(Debug, Clone, Copy, PartialEq, Eq, Structural)]
pub enum ETargetType {
    /// JSON
    Json,
    /// CSV
    CSV,
    /// XML
    Xml,
    /// YAML
    Yaml,
    /// Protocol Buffers
    Protobuff,
}

/// Every export format, in declaration order.
pub open spec fn all_target_types() -> Seq<ETargetType> {
    seq![ETargetType::Json, ETargetType::CSV, ETargetType::Xml, ETargetType::Yaml, ETargetType::Protobuff]
}

/// The display name of an export format.
pub open spec fn target_name(t: ETargetType) -> Seq<char> {
    match t {
        ETargetType::Json => "Json"@,
        ETargetType::CSV => "CSV"@,
        ETargetType::Xml => "Xml"@,
        ETargetType::Yaml => "Yaml"@,
        ETargetType::Protobuff => "Protobuff"@,
    }
}

impl ETargetType {
    /// Every export format, in declaration order.
    pub fn iter() -> (v: Vec<ETargetType>)
        ensures
            v@ == all_target_types(),
    {
        let v = vec![ETargetType::Json, ETargetType::CSV, ETargetType::Xml, ETargetType::Yaml, ETargetType::Protobuff];
        assert(v@ =~= all_target_types());
        v
    }

    /// The display name of the format.
    pub fn as_str(&self) -> (s: &'static str)
        ensures
            s@ == target_name(*self),
    {
        match self {
            ETargetType::Json => "Json",
            ETargetType::CSV => "CSV",
            ETargetType::Xml => "Xml",
            ETargetType::Yaml => "Yaml",
            ETargetType::Protobuff => "Protobuff",
        }
    }
}

} // verus!
