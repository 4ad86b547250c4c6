use aamp::decode::read_parameter_io;
use aamp::encode::write_parameter_io;
use aamp::hash::Name;
use aamp::names::NameTable;
use aamp::tree::{Node, NodeKind};
use aamp::types::{Parameter, ParameterIO, Vector2f};
use ryml::{NodeRef, NodeType, Tree};

fn read_node<'a, 't>(node: &NodeRef<'a, 't, '_, &'t Tree<'a>>) -> Node {
    let has_key = node.has_key().unwrap();
    let key = if has_key { node.key().unwrap().to_string() } else { String::new() };
    let key_quoted = has_key && node.is_key_quoted().unwrap();
    let tag = node.val_tag().unwrap_or("");
    let read = if node.is_map().unwrap() || node.is_seq().unwrap() {
        let kind = if node.is_map().unwrap() { NodeKind::Mapping } else { NodeKind::Sequence };
        let mut children = Vec::new();
        for child in node.iter().unwrap() {
            children.push(read_node(&child));
        }
        Node::container(kind, false, children)
    } else {
        let text = node.val().unwrap();
        let mut scalar = Node::scalar(text.to_string(), node.is_val_quoted().unwrap());
        scalar.number = lexical::parse::<f32, _>(text.as_bytes()).ok().map(f32::to_bits);
        scalar
    };
    read.with_tag(tag).with_key(key, key_quoted)
}

fn float_text(value: f32) -> String {
    if value == 0.0 && value.is_sign_negative() {
        "-0.0".to_string()
    } else {
        lexical::to_string(value)
    }
}

fn write_node<'a, 't>(node: &Node, mut out: NodeRef<'a, 't, '_, &'t mut Tree<'a>>) {
    match node.kind {
        NodeKind::Scalar => {
            if node.quoted {
                let ty = out.node_type().unwrap();
                out.set_type_flags(ty | NodeType::WipValDquo).unwrap();
            }
            match node.number {
                Some(bits) => out.set_val(&float_text(f32::from_bits(bits))).unwrap(),
                None => out.set_val(&node.text).unwrap(),
            }
        }
        NodeKind::Mapping | NodeKind::Sequence => {
            let kind = if node.kind == NodeKind::Mapping { NodeType::Map } else { NodeType::Seq };
            if node.flow {
                out.change_type(kind | NodeType::WipStyleFlowSl).unwrap();
            } else {
                out.change_type(kind).unwrap();
            }
            for child in &node.children {
                let mut slot = out.append_child().unwrap();
                if node.kind == NodeKind::Mapping {
                    if child.key_quoted {
                        let ty = slot.node_type().unwrap();
                        slot.set_type_flags(ty | NodeType::WipKeyDquo).unwrap();
                    }
                    slot.set_key(&child.key).unwrap();
                }
                write_node(child, slot);
            }
        }
    }
    if !node.tag.is_empty() {
        out.set_val_tag(&node.tag).unwrap();
    }
}

fn from_text(text: &str) -> ParameterIO {
    let tree = Tree::parse(text).unwrap();
    let root = tree.root_ref().unwrap();
    read_parameter_io(&read_node(&root)).unwrap()
}

fn to_text(pio: &ParameterIO, table: &mut NameTable) -> String {
    let node = write_parameter_io(pio, table);
    let mut tree = Tree::default();
    tree.reserve(10000);
    write_node(&node, tree.root_ref_mut().unwrap());
    let mut buf = vec![0; tree.capacity() * 32 + tree.arena_capacity() + 65536];
    let written = tree.emit_to_buffer(&mut buf).unwrap();
    buf.truncate(written);
    String::from_utf8(buf).unwrap()
}

const DOCUMENT: &str = "!io
version: 0
type: xml
param_root: !list
  objects:
    TestContent: !obj
      Bool_0: true
      Bool_1: false
      F32_0: 500.12
      F32_1: -0.5
      Int_0: -12
      Vec2: !vec2 [50.0, 45]
      Str32_0: !str32 Hello
      Str64: !str64 A longer text
      U32: !u 0x80000001
      U32_1: !u 17
      BufferInt: !buffer_int [1, -2, 0x10]
      BufferF32: !buffer_f32 [1.5, 2]
      BufferU32: !buffer_u32 [0x1, 0xffffffff]
      BufferBinary: !buffer_binary [0x0, 0xff, 7]
      StringRef_0: plain text
      StringRef_1: \"12\"
      StringRef_2: \"\"
      3005874473: 5
      \"2024\": 6
  lists:
    Child0: !list
      objects: {}
      lists: {}
";

#[test]
fn document_is_read() {
    let pio = from_text(DOCUMENT);
    assert_eq!(pio.version, 0);
    assert_eq!(pio.data_type, "xml");
    let content = pio.param_root.objects.get(Name::from_str("TestContent")).unwrap();
    let get = |name: &str| content.0.get(Name::from_str(name)).cloned();
    assert_eq!(get("Bool_0"), Some(Parameter::Bool(true)));
    assert_eq!(get("Bool_1"), Some(Parameter::Bool(false)));
    assert_eq!(get("F32_0"), Some(Parameter::F32(500.12f32.to_bits())));
    assert_eq!(get("F32_1"), Some(Parameter::F32((-0.5f32).to_bits())));
    assert_eq!(get("Int_0"), Some(Parameter::Int(-12)));
    assert_eq!(
        get("Vec2"),
        Some(Parameter::Vec2(Vector2f { x: 50.0f32.to_bits(), y: 45.0f32.to_bits() }))
    );
    assert_eq!(get("Str32_0"), Some(Parameter::String32("Hello".to_string())));
    assert_eq!(get("Str64"), Some(Parameter::String64("A longer text".to_string())));
    assert_eq!(get("U32"), Some(Parameter::U32(0x8000_0001)));
    assert_eq!(get("U32_1"), Some(Parameter::U32(17)));
    assert_eq!(get("BufferInt"), Some(Parameter::BufferInt(vec![1, -2, 16])));
    assert_eq!(
        get("BufferF32"),
        Some(Parameter::BufferF32(vec![1.5f32.to_bits(), 2.0f32.to_bits()]))
    );
    assert_eq!(get("BufferU32"), Some(Parameter::BufferU32(vec![1, u32::MAX])));
    assert_eq!(get("BufferBinary"), Some(Parameter::BufferBinary(vec![0, 255, 7])));
    assert_eq!(get("StringRef_0"), Some(Parameter::StringRef("plain text".to_string())));
    assert_eq!(get("StringRef_1"), Some(Parameter::StringRef("12".to_string())));
    assert_eq!(get("StringRef_2"), Some(Parameter::StringRef("".to_string())));
    assert_eq!(content.0.get(Name::new(3005874473)), Some(&Parameter::Int(5)));
    assert_eq!(get("2024"), Some(Parameter::Int(6)));
    assert_eq!(pio.param_root.lists.len(), 1);
    assert_eq!(pio.param_root.lists.key_at(0), Name::from_str("Child0"));
}

#[test]
fn document_survives_writing_and_reading() {
    let pio = from_text(DOCUMENT);
    let mut table = NameTable::new(true);
    for name in ["TestContent", "Bool_0", "F32_0", "Vec2", "Str32_0", "U32", "StringRef_1", "2024"] {
        table.add_name_str(name);
    }
    let text = to_text(&pio, &mut table);
    assert!(text.contains("TestContent: !obj"), "{}", text);
    assert!(text.contains("Bool_0: true"), "{}", text);
    assert!(text.contains("\"2024\": 6"), "{}", text);
    assert!(text.contains("U32: !u 0x80000001"), "{}", text);
    assert_eq!(from_text(&text), pio);
    let mut empty = NameTable::new(false);
    let text = to_text(&pio, &mut empty);
    assert_eq!(from_text(&text), pio);
}

#[test]
fn strings_survive_the_document() {
    let mut failures = Vec::new();
    for s in [
        "[a", "{a", "a: b", "#x", " lead", "trail ", "a #b", "&a", "*a", "", "12", "true", "~", "null", "1.5", "@a", "`a",
        "\"q", "'q", "%a", "?a", ":a", "- a", "a,b", "a]b", "key:", "multi\nline", "tab\there",
        "a\"b", "a'b", "~x", "null0", "Trueish", "é", "x: y: z", "],", "a}", "=", "<<",
    ] {
        let mut params = aamp::types::NameMap::new();
        params.insert(Name::new(1), Parameter::StringRef(s.to_string()));
        params.insert(Name::new(2), Parameter::String32(s.to_string()));
        let mut objects = aamp::types::NameMap::new();
        objects.insert(Name::new(3), aamp::types::ParameterObject(params));
        let pio = ParameterIO {
            version: 1,
            data_type: "xml".to_string(),
            param_root: aamp::types::ParameterList {
                objects,
                lists: aamp::types::ParameterListMap::new(),
            },
        };
        let mut table = NameTable::new(false);
        let text = to_text(&pio, &mut table);
        let back = match Tree::parse(&text) {
            Ok(tree) => read_parameter_io(&read_node(&tree.root_ref().unwrap())).ok(),
            Err(_) => None,
        };
        match back {
            Some(b) if b == pio => {}
            Some(b) => failures.push(format!("{:?}: differs\n{}\n{:?}", s, text, b)),
            None => failures.push(format!("{:?}: unreadable\n{}", s, text)),
        }
    }
    assert!(failures.is_empty(), "{}", failures.join("\n---\n"));
}

#[test]
fn floats_survive_the_document() {
    let values = [
        0.0f32,
        -0.0,
        1.5,
        -2.25,
        500.12,
        16777216.0,
        1e30,
        1e-30,
        f32::MAX,
        f32::MIN,
        f32::MIN_POSITIVE,
        f32::EPSILON,
        f32::INFINITY,
        f32::NEG_INFINITY,
        f32::NAN,
        0.1,
    ];
    let mut failures = Vec::new();
    for v in values {
        let mut params = aamp::types::NameMap::new();
        params.insert(Name::new(1), Parameter::F32(v.to_bits()));
        params.insert(Name::new(2), Parameter::BufferF32(vec![v.to_bits()]));
        let mut objects = aamp::types::NameMap::new();
        objects.insert(Name::new(3), aamp::types::ParameterObject(params));
        let pio = ParameterIO {
            version: 1,
            data_type: "xml".to_string(),
            param_root: aamp::types::ParameterList {
                objects,
                lists: aamp::types::ParameterListMap::new(),
            },
        };
        let mut table = NameTable::new(false);
        let text = to_text(&pio, &mut table);
        let back = match Tree::parse(&text) {
            Ok(tree) => read_parameter_io(&read_node(&tree.root_ref().unwrap())).ok(),
            Err(_) => None,
        };
        if back.as_ref() != Some(&pio) {
            let got = back.map(|b| format!("{:?}", b.param_root.objects.value_at(0)));
            failures.push(format!("{:?} as {:?}: {:?}", v, float_text(v), got));
        }
    }
    assert!(failures.is_empty(), "{}", failures.join("\n"));
}
