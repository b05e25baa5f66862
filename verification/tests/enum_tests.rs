use gable::gui::datas::action_command::{ActionCommand, ECommandType};
use gable::gui::datas::edata_type::EDataType;
use gable::gui::datas::edevelop_type::EDevelopType;
use gable::gui::datas::etarget_type::ETargetType;

#[test]
fn data_type_names() {
    let cases = [
        ("", EDataType::String),
        ("string", EDataType::String),
        ("int", EDataType::Int),
        ("long", EDataType::Long),
        ("bool", EDataType::Boolean),
        ("float", EDataType::Float),
        ("vector2", EDataType::Vector2),
        ("vector3", EDataType::Vector3),
        ("vector4", EDataType::Vector4),
        ("int[]", EDataType::IntArr),
        ("long[]", EDataType::LongArr),
        ("string[]", EDataType::StringArr),
        ("bool[]", EDataType::BooleanArr),
        ("float[]", EDataType::FloatArr),
        ("vector2[]", EDataType::Vector2Arr),
        ("vector3[]", EDataType::Vector3Arr),
        ("vector4[]", EDataType::Vector4Arr),
        ("%", EDataType::Percentage),
        ("‰", EDataType::Permillage),
        ("‱", EDataType::Permian),
        ("time", EDataType::Time),
        ("date", EDataType::Date),
        ("enum", EDataType::Enum),
        ("loc", EDataType::Loc),
        ("Int", EDataType::Unknown),
        ("double", EDataType::Unknown),
        (" int", EDataType::Unknown),
    ];
    for (text, t) in cases {
        assert_eq!(EDataType::convert(text), t, "{text}");
    }
}

#[test]
fn develop_types() {
    let all = EDevelopType::iter();
    assert_eq!(all.len(), 10);
    assert_eq!(all[0], EDevelopType::Cpp);
    assert_eq!(all[9], EDevelopType::Rust);
    let names: Vec<&str> = all.iter().map(|d| d.to_string()).collect();
    assert_eq!(names, vec!["C/C++", "C#", "Cangjie", "Go", "Java", "JavaScript", "Lua", "Python", "TypeScript", "Rust"]);
    let keys: Vec<&str> = all.iter().map(|d| d.to_keyword()).collect();
    assert_eq!(keys, vec!["cpp", "cs", "cj", "go", "java", "js", "lua", "py", "ts", "rs"]);
}

#[test]
fn target_types() {
    let all = ETargetType::iter();
    let names: Vec<&str> = all.iter().map(|t| t.as_str()).collect();
    assert_eq!(names, vec!["Json", "CSV", "Xml", "Yaml", "Protobuff"]);
}

#[test]
fn commands() {
    let c = ActionCommand::new(ECommandType::Rename, Some("a/b".into()), Some("c".into()));
    assert_eq!(c.com_type, ECommandType::Rename);
    assert_eq!(c.param1.as_deref(), Some("a/b"));
    assert_eq!(c.param2.as_deref(), Some("c"));
}
