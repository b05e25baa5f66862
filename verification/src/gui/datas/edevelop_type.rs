//! The languages that code can be generated for.
use vstd::prelude::*;

verus! {

/// A target programming language.
#[derive(Debug, Clone, Copy, PartialEq, Eq, Structural)]
pub enum EDevelopType {
    /// C or C++
    Cpp,
    /// C#
    Csharp,
    /// Cangjie
    Cangjie,
    /// Go
    Golang,
    /// Java
    Java,
    /// JavaScript
    JavaScript,
    /// Lua
    Lua,
    /// Python
    Python,
    /// TypeScript
    TypeScript,
    /// Rust
    Rust,
}

/// Every language, in declaration order.
pub open spec fn all_develop_types() -> Seq<EDevelopType> {
    seq![
        EDevelopType::Cpp,
        EDevelopType::Csharp,
        EDevelopType::Cangjie,
        EDevelopType::Golang,
        EDevelopType::Java,
        EDevelopType::JavaScript,
        EDevelopType::Lua,
        EDevelopType::Python,
        EDevelopType::TypeScript,
        EDevelopType::Rust,
    ]
}

/// The display name of a language.
pub open spec fn develop_name(d: EDevelopType) -> Seq<char> {
    match d {
        EDevelopType::Cpp => "C/C++"@,
        EDevelopType::Csharp => "C#"@,
        EDevelopType::Cangjie => "Cangjie"@,
        EDevelopType::Golang => "Go"@,
        EDevelopType::Java => "Java"@,
        EDevelopType::JavaScript => "JavaScript"@,
        EDevelopType::Lua => "Lua"@,
        EDevelopType::Python => "Python"@,
        EDevelopType::TypeScript => "TypeScript"@,
        EDevelopType::Rust => "Rust"@,
    }
}

/// The file-extension keyword of a language.
pub open spec fn develop_keyword(d: EDevelopType) -> Seq<char> {
    match d {
        EDevelopType::Cpp => "cpp"@,
        EDevelopType::Csharp => "cs"@,
        EDevelopType::Cangjie => "cj"@,
        EDevelopType::Golang => "go"@,
        EDevelopType::Java => "java"@,
        EDevelopType::JavaScript => "js"@,
        EDevelopType::Lua => "lua"@,
        EDevelopType::Python => "py"@,
        EDevelopType::TypeScript => "ts"@,
        EDevelopType::Rust => "rs"@,
    }
}

impl EDevelopType {
    /// The display name of the language.
    pub fn to_string(&self) -> (s: &'static str)
        ensures
            s@ == develop_name(*self),
    {
        match self {
            EDevelopType::Cpp => "C/C++",
            EDevelopType::Csharp => "C#",
            EDevelopType::Cangjie => "Cangjie",
            EDevelopType::Golang => "Go",
            EDevelopType::Java => "Java",
            EDevelopType::JavaScript => "JavaScript",
            EDevelopType::Lua => "Lua",
            EDevelopType::Python => "Python",
            EDevelopType::TypeScript => "TypeScript",
            EDevelopType::Rust => "Rust",
        }
    }

    /// Every language, in declaration order.
    pub fn iter() -> (v: Vec<EDevelopType>)
        ensures
            v@ == all_develop_types(),
    {
        let v = vec![
            EDevelopType::Cpp,
            EDevelopType::Csharp,
            EDevelopType::Cangjie,
            EDevelopType::Golang,
            EDevelopType::Java,
            EDevelopType::JavaScript,
            EDevelopType::Lua,
            EDevelopType::Python,
            EDevelopType::TypeScript,
            EDevelopType::Rust,
        ];
        assert(v@ =~= all_develop_types());
        v
    }

    /// The file-extension keyword of the language.
    pub fn to_keyword(&self) -> (s: &'static str)
        ensures
            s@ == develop_keyword(*self),
    {
        match self {
            EDevelopType::Cpp => "cpp",
            EDevelopType::Csharp => "cs",
            EDevelopType::Cangjie => "cj",
            EDevelopType::Golang => "go",
            EDevelopType::Java => "java",
            EDevelopType::JavaScript => "js",
            EDevelopType::Lua => "lua",
            EDevelopType::Python => "py",
            EDevelopType::TypeScript => "ts",
            EDevelopType::Rust => "rs",
        }
    }
}

/// Every language is listed exactly once.
pub proof fn lemma_develop_types_listed_once(d: EDevelopType)
    ensures
        all_develop_types().contains(d),
        all_develop_types().filter(|x: EDevelopType| x == d).len() == 1,
{
    reveal_with_fuel(Seq::<_>::filter, 11);
    assert(all_develop_types().filter(|x: EDevelopType| x == d).len() == 1);
    match d {
        EDevelopType::Cpp => assert(all_develop_types()[0] == d),
        EDevelopType::Csharp => assert(all_develop_types()[1] == d),
        EDevelopType::Cangjie => assert(all_develop_types()[2] == d),
        EDevelopType::Golang => assert(all_develop_types()[3] == d),
        EDevelopType::Java => assert(all_develop_types()[4] == d),
        EDevelopType::JavaScript => assert(all_develop_types()[5] == d),
        EDevelopType::Lua => assert(all_develop_types()[6] == d),
        EDevelopType::Python => assert(all_develop_types()[7] == d),
        EDevelopType::TypeScript => assert(all_develop_types()[8] == d),
        EDevelopType::Rust => assert(all_develop_types()[9] == d),
    }
}

} // verus!
