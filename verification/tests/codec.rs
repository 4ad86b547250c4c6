use aamp::decode::{
    parse_parameter, read_parameter_io, read_parameter_list, read_parameter_object, DataError,
};
use aamp::encode::{string_needs_quotes, write_parameter, write_parameter_io, ROOT_KEY};
use aamp::hash::{hash_name, Name};
use aamp::names::NameTable;
use aamp::tree::{Node, NodeKind};
use aamp::types::{
    Color, Curve, NameMap, Parameter, ParameterIO, ParameterList, ParameterListMap,
    ParameterObject, Quat, Vector2f, Vector3f, Vector4f,
};

fn text(s: &str) -> Node {
    Node::scalar(s.to_string(), false)
}

fn float_text(s: &str, v: f32) -> Node {
    let mut n = text(s);
    n.number = Some(v.to_bits());
    n
}

fn seq(tag: &str, children: Vec<Node>) -> Node {
    Node::container(NodeKind::Sequence, true, children).with_tag(tag)
}

fn map(children: Vec<Node>) -> Node {
    Node::container(NodeKind::Mapping, false, children)
}

fn sample() -> ParameterIO {
    let mut content: NameMap<Parameter> = NameMap::new();
    content.insert(Name::from_str("Bool_0"), Parameter::Bool(true));
    content.insert(Name::from_str("F32_0"), Parameter::F32(500.12f32.to_bits()));
    content.insert(Name::from_str("Int_0"), Parameter::Int(-7));
    content.insert(
        Name::from_str("Vec2"),
        Parameter::Vec2(Vector2f { x: 50.0f32.to_bits(), y: 45.0f32.to_bits() }),
    );
    content.insert(
        Name::from_str("Vec3"),
        Parameter::Vec3(Vector3f { x: 1.0f32.to_bits(), y: 2.0f32.to_bits(), z: 3.0f32.to_bits() }),
    );
    content.insert(
        Name::from_str("Vec4"),
        Parameter::Vec4(Vector4f {
            x: 1.0f32.to_bits(),
            y: 2.0f32.to_bits(),
            z: 3.0f32.to_bits(),
            t: 4.0f32.to_bits(),
        }),
    );
    content.insert(
        Name::from_str("Color"),
        Parameter::Color(Color {
            r: 0.25f32.to_bits(),
            g: 0.5f32.to_bits(),
            b: 0.75f32.to_bits(),
            a: 1.0f32.to_bits(),
        }),
    );
    content.insert(
        Name::from_str("Quat"),
        Parameter::Quat(Quat { a: 0, b: 1, c: 2, d: f32::NAN.to_bits() }),
    );
    content.insert(Name::from_str("Str32_0"), Parameter::String32("Hello".to_string()));
    content.insert(Name::from_str("Str64"), Parameter::String64("".to_string()));
    content.insert(Name::from_str("Str256"), Parameter::String256("12".to_string()));
    let mut floats = [0u32; 30];
    for (i, f) in floats.iter_mut().enumerate() {
        *f = (i as f32 * 0.5).to_bits();
    }
    let curve = Curve { a: 9, b: 4294967295, floats };
    content.insert(Name::from_str("Curve1"), Parameter::Curve1([curve]));
    content.insert(Name::from_str("Curve2"), Parameter::Curve2([curve, curve]));
    content.insert(Name::from_str("BufferInt"), Parameter::BufferInt(vec![1, -2, 2147483647, -2147483648]));
    content.insert(Name::from_str("BufferF32"), Parameter::BufferF32(vec![1.5f32.to_bits()]));
    content.insert(Name::from_str("U32"), Parameter::U32(0x8000_0001));
    content.insert(Name::from_str("BufferU32"), Parameter::BufferU32(vec![0, 9, 10, 4294967295]));
    content.insert(Name::from_str("BufferBinary"), Parameter::BufferBinary(vec![0, 255, 16]));
    content.insert(Name::from_str("StringRef_0"), Parameter::StringRef("plain".to_string()));
    content.insert(Name::from_str("StringRef_1"), Parameter::StringRef("12".to_string()));
    content.insert(Name::from_str("StringRef_2"), Parameter::StringRef("true".to_string()));
    content.insert(Name::from_str("StringRef_3"), Parameter::StringRef("".to_string()));
    content.insert(Name::new(12345), Parameter::Int(1));

    let mut objects: NameMap<ParameterObject> = NameMap::new();
    objects.insert(Name::from_str("TestContent"), ParameterObject(content));
    let mut inner_objects: NameMap<ParameterObject> = NameMap::new();
    let mut inner: NameMap<Parameter> = NameMap::new();
    inner.insert(Name::from_str("Inner_0"), Parameter::Bool(false));
    inner_objects.insert(Name::from_str("Inner"), ParameterObject(inner));
    let mut lists = ParameterListMap::new();
    lists.insert(
        Name::from_str("Child0"),
        ParameterList { objects: inner_objects, lists: ParameterListMap::new() },
    );
    ParameterIO {
        version: 0,
        data_type: "xml".to_string(),
        param_root: ParameterList { objects, lists },
    }
}

#[test]
fn parse() {
    let mut table = NameTable::new(true);
    let tree = write_parameter_io(&sample(), &mut table);
    let pio = read_parameter_io(&tree).unwrap();
    assert_eq!(
        pio.param_root
            .objects
            .get(Name::from_str("TestContent"))
            .unwrap()
            .0
            .get(Name::from_str("Bool_0")),
        Some(&Parameter::Bool(true))
    );
}

#[test]
fn text_roundtrip() {
    let mut table = NameTable::new(true);
    for name in [
        "Bool_0", "F32_0", "Vec2", "Vec3", "Vec4", "Color", "Str32_0", "Str64", "Curve1",
        "BufferInt", "BufferF32", "Str256", "Quat", "U32", "BufferU32", "BufferBinary",
        "StringRef_0", "StringRef_1", "StringRef_2", "StringRef_3", "TestContent",
    ] {
        table.add_name(name.to_string());
    }
    let pio = sample();
    let tree = write_parameter_io(&pio, &mut table);
    let pio2 = read_parameter_io(&tree).unwrap();
    assert_eq!(pio, pio2);
    let tree2 = write_parameter_io(&pio2, &mut table);
    assert_eq!(tree, tree2);
}

#[test]
fn roundtrip_without_names() {
    let mut table = NameTable::new(false);
    let pio = sample();
    let tree = write_parameter_io(&pio, &mut table);
    assert_eq!(read_parameter_io(&tree).unwrap(), pio);
}

#[test]
fn archive_tree_has_the_documented_shape() {
    let mut table = NameTable::new(false);
    table.add_name_str("TestContent");
    table.add_name_str("Bool_0");
    let tree = write_parameter_io(&sample(), &mut table);
    assert_eq!(tree.kind, NodeKind::Mapping);
    assert_eq!(tree.tag, "!io");
    assert_eq!(tree.children.len(), 3);
    assert_eq!(tree.children[0].key, "version");
    assert_eq!(tree.children[0].text, "0");
    assert_eq!(tree.children[1].key, "type");
    assert_eq!(tree.children[1].text, "xml");
    let root = &tree.children[2];
    assert_eq!(root.key, "param_root");
    assert_eq!(root.tag, "!list");
    assert_eq!(root.children[0].key, "objects");
    assert_eq!(root.children[1].key, "lists");
    let object = &root.children[0].children[0];
    assert_eq!(object.key, "TestContent");
    assert_eq!(object.tag, "!obj");
    assert_eq!(object.children[0].key, "Bool_0");
    assert_eq!(object.children[0].text, "true");
    // No name is known for this key: it is written as the decimal hash.
    assert_eq!(object.children[1].key, hash_name("F32_0").to_string());
    assert!(!object.children[1].key_quoted);
    assert_eq!(object.children[1].number, Some(500.12f32.to_bits()));
    assert_eq!(ROOT_KEY, hash_name("param_root"));
}

#[test]
fn unsigned_is_written_in_hex_and_read_back() {
    for x in [0u32, 1, 9, 10, 255, 0x7FFF_FFFF, 0x8000_0000, 0xDEAD_BEEF, u32::MAX] {
        let node = write_parameter(&Parameter::U32(x));
        assert_eq!(node.tag, "!u");
        assert_eq!(node.text, format!("{:#x}", x));
        assert_eq!(parse_parameter(&node), Ok(Parameter::U32(x)));
    }
    assert_eq!(parse_parameter(&text("0x10").with_tag("!u")), Ok(Parameter::U32(16)));
    assert_eq!(parse_parameter(&text("0XFF").with_tag("!u")), Err(DataError::BadNumber));
    assert_eq!(parse_parameter(&text("ff").with_tag("!u")), Ok(Parameter::U32(255)));
    assert_eq!(parse_parameter(&text("17").with_tag("!u")), Ok(Parameter::U32(17)));
    assert_eq!(parse_parameter(&text("-1").with_tag("!u")), Err(DataError::BadNumber));
    assert_eq!(parse_parameter(&text("4294967296").with_tag("!u")), Err(DataError::BadNumber));
    assert_eq!(parse_parameter(&text("0x100000000").with_tag("!u")), Err(DataError::BadNumber));
}

fn curve_children(n: usize) -> Vec<Node> {
    (0..n)
        .map(|i| if i % 32 < 2 { text(&i.to_string()) } else { float_text("0.5", 0.5) })
        .collect()
}

#[test]
fn curve_count_decides_the_variant() {
    assert!(matches!(
        parse_parameter(&seq("!curve", curve_children(32))),
        Ok(Parameter::Curve1(_))
    ));
    assert!(matches!(
        parse_parameter(&seq("!curve", curve_children(64))),
        Ok(Parameter::Curve2(_))
    ));
    assert!(matches!(
        parse_parameter(&seq("!curve", curve_children(96))),
        Ok(Parameter::Curve3(_))
    ));
    match parse_parameter(&seq("!curve", curve_children(128))) {
        Ok(Parameter::Curve4(c)) => {
            assert_eq!(c[3].a, 96);
            assert_eq!(c[3].b, 97);
            assert_eq!(c[3].floats, [0.5f32.to_bits(); 30]);
        }
        other => panic!("{:?}", other),
    }
    for n in [0usize, 1, 31, 33, 50, 127, 129, 160] {
        assert_eq!(
            parse_parameter(&seq("!curve", curve_children(n))),
            Err(DataError::CurveCount)
        );
    }
    let mut bad = curve_children(32);
    bad[5] = text("x");
    assert_eq!(parse_parameter(&seq("!curve", bad)), Err(DataError::BadNumber));
    let mut bad = curve_children(32);
    bad[0] = float_text("0.5", 0.5);
    assert_eq!(parse_parameter(&seq("!curve", bad)), Err(DataError::BadNumber));
}

#[test]
fn scalars_are_classified() {
    assert_eq!(parse_parameter(&text("true")), Ok(Parameter::Bool(true)));
    assert_eq!(parse_parameter(&text("false")), Ok(Parameter::Bool(false)));
    assert_eq!(parse_parameter(&text("12")), Ok(Parameter::Int(12)));
    assert_eq!(parse_parameter(&text("-12")), Ok(Parameter::Int(-12)));
    assert_eq!(parse_parameter(&text("+12")), Ok(Parameter::Int(12)));
    assert_eq!(parse_parameter(&text("0x1f")), Ok(Parameter::Int(31)));
    assert_eq!(parse_parameter(&text("2147483647")), Ok(Parameter::Int(i32::MAX)));
    assert_eq!(parse_parameter(&text("-2147483648")), Ok(Parameter::Int(i32::MIN)));
    assert_eq!(
        parse_parameter(&text("2147483648")),
        Ok(Parameter::StringRef("2147483648".to_string()))
    );
    assert_eq!(
        parse_parameter(&float_text("2147483648", 2147483648.0)),
        Ok(Parameter::F32(2147483648.0f32.to_bits()))
    );
    assert_eq!(parse_parameter(&float_text("1.5", 1.5)), Ok(Parameter::F32(1.5f32.to_bits())));
    assert_eq!(parse_parameter(&float_text("12", 12.0)), Ok(Parameter::Int(12)));
    assert_eq!(parse_parameter(&text("abc")), Ok(Parameter::StringRef("abc".to_string())));
    assert_eq!(parse_parameter(&float_text("abc", 2748.0)), Ok(Parameter::StringRef("abc".to_string())));
    assert_eq!(parse_parameter(&float_text("", 1.0)), Ok(Parameter::F32(1.0f32.to_bits())));
    assert_eq!(parse_parameter(&float_text("NaN", f32::NAN)), Ok(Parameter::F32(f32::NAN.to_bits())));
    assert_eq!(parse_parameter(&float_text("-inf", f32::NEG_INFINITY)), Ok(Parameter::F32(f32::NEG_INFINITY.to_bits())));
    assert_eq!(parse_parameter(&float_text(".5", 0.5)), Ok(Parameter::F32(0.5f32.to_bits())));
    assert_eq!(parse_parameter(&float_text("1e5", 1e5)), Ok(Parameter::F32(1e5f32.to_bits())));
    assert_eq!(
        parse_parameter(&Node::scalar("12".to_string(), true)),
        Ok(Parameter::StringRef("12".to_string()))
    );
    assert_eq!(
        parse_parameter(&Node::scalar("".to_string(), true)),
        Ok(Parameter::StringRef("".to_string()))
    );
    for null in ["", "~", "null", "Null", "NULL"] {
        assert_eq!(parse_parameter(&text(null)), Err(DataError::NullScalar));
    }
    assert_eq!(
        parse_parameter(&text("12").with_tag("!str32")),
        Ok(Parameter::String32("12".to_string()))
    );
    assert_eq!(
        parse_parameter(&text("a").with_tag("!str64")),
        Ok(Parameter::String64("a".to_string()))
    );
    assert_eq!(
        parse_parameter(&text("").with_tag("!str256")),
        Ok(Parameter::String256("".to_string()))
    );
    assert_eq!(parse_parameter(&text("7").with_tag("!other")), Ok(Parameter::Int(7)));
    assert_eq!(parse_parameter(&map(vec![])), Err(DataError::WrongShape));
}

#[test]
fn sequences_need_a_known_tag() {
    let two = || vec![float_text("1", 1.0), float_text("2.5", 2.5)];
    assert_eq!(
        parse_parameter(&seq("!vec2", two())),
        Ok(Parameter::Vec2(Vector2f { x: 1.0f32.to_bits(), y: 2.5f32.to_bits() }))
    );
    assert_eq!(
        parse_parameter(&Node::container(NodeKind::Sequence, true, two())),
        Err(DataError::UnknownTag)
    );
    assert_eq!(parse_parameter(&seq("!vec5", two())), Err(DataError::UnknownTag));
    assert_eq!(parse_parameter(&seq("!vec3", two())), Err(DataError::MissingChild));
    assert_eq!(
        parse_parameter(&seq("!vec3", vec![float_text("1", 1.0), text("x")])),
        Err(DataError::BadNumber)
    );
    assert_eq!(parse_parameter(&seq("!quat", two())), Err(DataError::MissingChild));
    assert_eq!(parse_parameter(&seq("!color", two())), Err(DataError::MissingChild));
    assert_eq!(parse_parameter(&seq("!vec4", two())), Err(DataError::MissingChild));
    assert_eq!(
        parse_parameter(&seq("!buffer_int", vec![text("1"), text("-0x10"), text("0x10"), text("ff")])),
        Err(DataError::BadNumber)
    );
    assert_eq!(
        parse_parameter(&seq("!buffer_int", vec![text("1"), text("0x10"), text("ff"), text("-7")])),
        Ok(Parameter::BufferInt(vec![1, 16, 255, -7]))
    );
    assert_eq!(
        parse_parameter(&seq("!buffer_u32", vec![text("1"), text("0xffffffff")])),
        Ok(Parameter::BufferU32(vec![1, u32::MAX]))
    );
    assert_eq!(
        parse_parameter(&seq("!buffer_u32", vec![text("-1")])),
        Err(DataError::BadNumber)
    );
    assert_eq!(
        parse_parameter(&seq("!buffer_binary", vec![text("255"), text("0x0"), text("0xff")])),
        Ok(Parameter::BufferBinary(vec![255, 0, 255]))
    );
    assert_eq!(
        parse_parameter(&seq("!buffer_binary", vec![text("256")])),
        Err(DataError::BadNumber)
    );
    assert_eq!(
        parse_parameter(&seq("!buffer_f32", vec![float_text("1", 1.0)])),
        Ok(Parameter::BufferF32(vec![1.0f32.to_bits()]))
    );
    assert_eq!(parse_parameter(&seq("!buffer_f32", vec![text("1")])), Err(DataError::BadNumber));
    assert_eq!(parse_parameter(&seq("!buffer_int", vec![])), Ok(Parameter::BufferInt(vec![])));
}

#[test]
fn keys_are_hashes_or_names() {
    let entry = |key: &str, quoted: bool| text("1").with_key(key.to_string(), quoted);
    let object = read_parameter_object(&map(vec![
        entry("123", false),
        entry("123", true),
        entry("Name", false),
        entry("4294967299", false),
    ]))
    .unwrap();
    assert_eq!(object.0.len(), 4);
    assert_eq!(object.0.key_at(0), Name::new(123));
    assert_eq!(object.0.key_at(1), Name::new(hash_name("123")));
    assert_eq!(object.0.key_at(2), Name::from_str("Name"));
    assert_eq!(object.0.key_at(3), Name::new(3));
    let object = read_parameter_object(&map(vec![
        entry("18446744073709551615", false),
        entry("000000000000000000000123", false),
        entry("+5", false),
        entry("-5", false),
        entry("12a", false),
        entry("", false),
    ]))
    .unwrap();
    assert_eq!(object.0.key_at(0), Name::new(u32::MAX));
    assert_eq!(object.0.key_at(1), Name::new(123));
    assert_eq!(object.0.key_at(2), Name::new(5));
    assert_eq!(object.0.key_at(3), Name::from_str("-5"));
    assert_eq!(object.0.key_at(4), Name::from_str("12a"));
    assert_eq!(object.0.key_at(5), Name::from_str(""));
}

#[test]
fn numeric_names_are_quoted_as_keys() {
    let mut table = NameTable::new(false);
    table.add_name_str("2024");
    let mut params: NameMap<Parameter> = NameMap::new();
    params.insert(Name::from_str("2024"), Parameter::Int(5));
    params.insert(Name::new(2024), Parameter::Int(6));
    let object = ParameterObject(params);
    let node = aamp::encode::write_parameter_object(&object, 0, &mut table);
    assert_eq!(node.children[0].key, "2024");
    assert!(node.children[0].key_quoted);
    assert_eq!(node.children[1].key, "2024");
    assert!(!node.children[1].key_quoted);
    assert_eq!(read_parameter_object(&node).unwrap(), object);
}

#[test]
fn a_repeated_key_keeps_its_place() {
    let node = map(vec![
        text("1").with_key("a".to_string(), false),
        text("2").with_key("b".to_string(), false),
        text("3").with_key("a".to_string(), false),
    ]);
    let object = read_parameter_object(&node).unwrap();
    assert_eq!(object.0.len(), 2);
    assert_eq!(object.0.key_at(0), Name::from_str("a"));
    assert_eq!(object.0.value_at(0), &Parameter::Int(3));
    assert_eq!(object.0.get(Name::from_str("b")), Some(&Parameter::Int(2)));
    assert_eq!(object.0.get(Name::from_str("c")), None);
}

#[test]
fn missing_children_and_wrong_shapes_are_errors() {
    let list = |children: Vec<Node>| map(children);
    let objects = || map(vec![]).with_key("objects".to_string(), false);
    let lists = || map(vec![]).with_key("lists".to_string(), false);
    assert!(read_parameter_list(&list(vec![objects(), lists()])).is_ok());
    assert_eq!(read_parameter_list(&list(vec![objects()])), Err(DataError::MissingChild));
    assert_eq!(read_parameter_list(&list(vec![lists()])), Err(DataError::MissingChild));
    assert_eq!(read_parameter_list(&text("x")), Err(DataError::WrongShape));
    assert_eq!(
        read_parameter_list(&list(vec![text("x").with_key("objects".to_string(), false), lists()])),
        Err(DataError::WrongShape)
    );
    assert_eq!(read_parameter_object(&seq("!obj", vec![])), Err(DataError::WrongShape));
    let root = || list(vec![objects(), lists()]).with_key("param_root".to_string(), false);
    let version = || text("10").with_key("version".to_string(), false);
    let ty = || text("xml").with_key("type".to_string(), false);
    let io = read_parameter_io(&map(vec![version(), ty(), root()])).unwrap();
    assert_eq!(io.version, 10);
    assert_eq!(io.data_type, "xml");
    assert_eq!(read_parameter_io(&map(vec![ty(), root()])), Err(DataError::MissingChild));
    assert_eq!(read_parameter_io(&map(vec![version(), root()])), Err(DataError::MissingChild));
    assert_eq!(read_parameter_io(&map(vec![version(), ty()])), Err(DataError::MissingChild));
    assert_eq!(
        read_parameter_io(&map(vec![text("x").with_key("version".to_string(), false), ty(), root()])),
        Err(DataError::BadNumber)
    );
    assert_eq!(read_parameter_io(&seq("!io", vec![])), Err(DataError::WrongShape));
    assert_eq!(DataError::NullScalar.message(), "null values are not supported");
}

#[test]
fn strings_are_quoted_when_needed() {
    for s in ["", "~", "null", "true", "false", "12", "-5", "0x10", "1.5", ".5", "+x", "!tag", "NaN", "inf", "Infinity", "9lives"] {
        assert!(string_needs_quotes(s), "{}", s);
        let node = write_parameter(&Parameter::StringRef(s.to_string()));
        assert!(node.quoted);
        assert_eq!(parse_parameter(&node), Ok(Parameter::StringRef(s.to_string())));
    }
    for s in ["plain", "Name", "x12", "nano", "information", "a b"] {
        assert!(!string_needs_quotes(s), "{}", s);
        let node = write_parameter(&Parameter::StringRef(s.to_string()));
        assert!(!node.quoted);
        assert_eq!(parse_parameter(&node), Ok(Parameter::StringRef(s.to_string())));
    }
}

fn texts(node: &Node) -> Vec<String> {
    node.children.iter().map(|c| c.text.clone()).collect()
}

fn numbers(node: &Node) -> Vec<Option<u32>> {
    node.children.iter().map(|c| c.number).collect()
}

#[test]
fn leaves_are_written() {
    let node = write_parameter(&Parameter::Bool(true));
    assert_eq!((node.kind, node.text.as_str(), node.tag.as_str(), node.quoted), (NodeKind::Scalar, "true", "", false));
    assert_eq!(write_parameter(&Parameter::Bool(false)).text, "false");
    let node = write_parameter(&Parameter::Int(-7));
    assert_eq!((node.text.as_str(), node.tag.as_str(), node.number), ("-7", "", None));
    assert_eq!(write_parameter(&Parameter::Int(i32::MIN)).text, "-2147483648");
    assert_eq!(write_parameter(&Parameter::Int(0)).text, "0");
    let node = write_parameter(&Parameter::F32(1.5f32.to_bits()));
    assert_eq!((node.text.as_str(), node.number, node.quoted), ("", Some(1.5f32.to_bits()), false));
    let node = write_parameter(&Parameter::U32(255));
    assert_eq!((node.text.as_str(), node.tag.as_str()), ("0xff", "!u"));
    let node = write_parameter(&Parameter::String32("a".to_string()));
    assert_eq!((node.text.as_str(), node.tag.as_str(), node.quoted), ("a", "!str32", false));
    assert_eq!(write_parameter(&Parameter::String64("a".to_string())).tag, "!str64");
    assert_eq!(write_parameter(&Parameter::String256("a".to_string())).tag, "!str256");
    let node = write_parameter(&Parameter::Vec3(Vector3f { x: 1, y: 2, z: 3 }));
    assert_eq!((node.kind, node.tag.as_str(), node.flow), (NodeKind::Sequence, "!vec3", true));
    assert_eq!(numbers(&node), vec![Some(1), Some(2), Some(3)]);
    let node = write_parameter(&Parameter::Vec2(Vector2f { x: 1, y: 2 }));
    assert_eq!((node.tag.as_str(), numbers(&node)), ("!vec2", vec![Some(1), Some(2)]));
    let node = write_parameter(&Parameter::Vec4(Vector4f { x: 1, y: 2, z: 3, t: 4 }));
    assert_eq!((node.tag.as_str(), numbers(&node)), ("!vec4", vec![Some(1), Some(2), Some(3), Some(4)]));
    let node = write_parameter(&Parameter::Quat(Quat { a: 1, b: 2, c: 3, d: 4 }));
    assert_eq!((node.tag.as_str(), numbers(&node)), ("!quat", vec![Some(1), Some(2), Some(3), Some(4)]));
    let node = write_parameter(&Parameter::Color(Color { r: 1, g: 2, b: 3, a: 4 }));
    assert_eq!((node.tag.as_str(), numbers(&node)), ("!color", vec![Some(1), Some(2), Some(3), Some(4)]));
    let node = write_parameter(&Parameter::BufferInt(vec![1, -2]));
    assert_eq!((node.tag.as_str(), texts(&node)), ("!buffer_int", vec!["1".to_string(), "-2".to_string()]));
    let node = write_parameter(&Parameter::BufferU32(vec![1, 4294967295]));
    assert_eq!((node.tag.as_str(), texts(&node)), ("!buffer_u32", vec!["0x1".to_string(), "0xffffffff".to_string()]));
    let node = write_parameter(&Parameter::BufferBinary(vec![0, 171]));
    assert_eq!((node.tag.as_str(), texts(&node)), ("!buffer_binary", vec!["0x0".to_string(), "0xab".to_string()]));
    let node = write_parameter(&Parameter::BufferF32(vec![7, 8]));
    assert_eq!((node.tag.as_str(), numbers(&node)), ("!buffer_f32", vec![Some(7), Some(8)]));
    let mut floats = [0u32; 30];
    for (i, f) in floats.iter_mut().enumerate() {
        *f = 100 + i as u32;
    }
    let first = Curve { a: 3, b: 4, floats };
    let second = Curve { a: 5, b: 6, floats };
    let node = write_parameter(&Parameter::Curve2([first, second]));
    assert_eq!((node.kind, node.tag.as_str(), node.flow), (NodeKind::Sequence, "!curve", true));
    assert_eq!(node.children.len(), 64);
    assert_eq!(node.children[0].text, "3");
    assert_eq!(node.children[1].text, "4");
    assert_eq!(node.children[2].number, Some(100));
    assert_eq!(node.children[31].number, Some(129));
    assert_eq!(node.children[32].text, "5");
    assert_eq!(node.children[33].text, "6");
    assert_eq!(node.children[63].number, Some(129));
    assert_eq!(parse_parameter(&node), Ok(Parameter::Curve2([first, second])));
    for count in [1usize, 3, 4] {
        let param = match count {
            1 => Parameter::Curve1([first]),
            3 => Parameter::Curve3([first, second, first]),
            _ => Parameter::Curve4([first, second, first, second]),
        };
        let node = write_parameter(&param);
        assert_eq!(node.children.len(), 32 * count);
        assert_eq!(parse_parameter(&node), Ok(param));
    }
}
