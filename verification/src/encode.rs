//! From the typed model to a tree of text nodes.

use vstd::prelude::*;
use vstd::string::StrSliceExecFns;
use vstd::string::StringExecFns;
use crate::decode::is_null;
use crate::decode::is_null_text;
use crate::number::{
    format_hex, format_i64, hex_text, int_text, looks_like_number, looks_numeric, parse_plain,
    read_plain,
};
use crate::text::same_text;
use crate::tree::{blank, nodes_view, Node, NodeKind, NodeV};
use crate::names::{after_guess, guess, text_of, NameTable, TableV};
use crate::number::{parse_u64, read_u64};
use crate::types::{
    curves_view, lemma_child_list_decreases, lemma_list_view, lists_view, objects_view,
    Curve, CurveV, IoV, ListV, NameMap, ParamV, Parameter, ParameterIO,
    ParameterList, ParameterObject,
};

verus! {

/// An unquoted scalar with this text.
pub open spec fn text_node(text: Seq<char>, quoted: bool) -> NodeV {
    NodeV { text, quoted, ..blank() }
}

/// A scalar that stands for a floating-point value.
pub open spec fn float_node(bits: u32) -> NodeV {
    NodeV { number: Some(bits), ..blank() }
}

/// A scalar with the decimal text of an integer.
pub open spec fn int_node(v: int) -> NodeV {
    text_node(int_text(v), false)
}

/// A scalar with the hexadecimal text of an unsigned integer.
pub open spec fn hex_node(v: nat) -> NodeV {
    text_node(hex_text(v), false)
}

/// The same node with a tag.
pub open spec fn tagged(node: NodeV, tag: Seq<char>) -> NodeV {
    NodeV { tag, ..node }
}

/// A sequence on one line with these children and this tag.
pub open spec fn seq_node(children: Seq<NodeV>, tag: Seq<char>) -> NodeV {
    NodeV { kind: NodeKind::Sequence, flow: true, children, tag, ..blank() }
}

/// The nodes of a run of floating-point values.
pub open spec fn float_nodes(values: Seq<u32>) -> Seq<NodeV> {
    Seq::new(values.len(), |i: int| float_node(values[i]))
}

/// The nodes of a run of signed integers: decimal text.
pub open spec fn int_nodes(values: Seq<i32>) -> Seq<NodeV> {
    Seq::new(values.len(), |i: int| int_node(values[i] as int))
}

/// The nodes of a run of unsigned integers: hexadecimal text.
pub open spec fn hex_nodes(values: Seq<u32>) -> Seq<NodeV> {
    Seq::new(values.len(), |i: int| hex_node(values[i] as nat))
}

/// The nodes of a run of bytes: hexadecimal text.
pub open spec fn byte_nodes(values: Seq<u8>) -> Seq<NodeV> {
    Seq::new(values.len(), |i: int| hex_node(values[i] as nat))
}

/// The node of slot `k` of a curve: its two integers in decimal text, then
/// its floating-point values.
pub open spec fn curve_slot(curve: CurveV, k: int) -> NodeV {
    if k == 0 {
        int_node(curve.a as int)
    } else if k == 1 {
        int_node(curve.b as int)
    } else {
        float_node(curve.floats[k - 2])
    }
}

/// The nodes of a run of curves: 32 for each, one curve after the other.
pub open spec fn curve_nodes(curves: Seq<CurveV>) -> Seq<NodeV> {
    Seq::new(32 * curves.len(), |i: int| curve_slot(curves[i / 32], i % 32))
}

/// Whether a string must be written in quotes, because without them it would
/// be taken for something else: it is an integer literal, a boolean or a
/// null, looks like a number, or begins like a tag.
pub open spec fn needs_quotes(s: Seq<char>) -> bool {
    ||| read_plain(s, i32::MIN as int, i32::MAX as int) is Some
    ||| s == "true"@
    ||| s == "false"@
    ||| is_null(s)
    ||| looks_numeric(s)
    ||| (s.len() > 0 && s[0] == '!')
}

/// The node that a leaf is written as.
pub open spec fn encode_param(param: ParamV) -> NodeV {
    match param {
        ParamV::Bool(b) => text_node(
            if b {
                "true"@
            } else {
                "false"@
            },
            false,
        ),
        ParamV::F32(f) => float_node(f),
        ParamV::Int(i) => int_node(i as int),
        ParamV::Vec2(v) => seq_node(float_nodes(seq![v.x, v.y]), "!vec2"@),
        ParamV::Vec3(v) => seq_node(float_nodes(seq![v.x, v.y, v.z]), "!vec3"@),
        ParamV::Vec4(v) => seq_node(float_nodes(seq![v.x, v.y, v.z, v.t]), "!vec4"@),
        ParamV::Color(c) => seq_node(float_nodes(seq![c.r, c.g, c.b, c.a]), "!color"@),
        ParamV::String32(s) => tagged(text_node(s, false), "!str32"@),
        ParamV::String64(s) => tagged(text_node(s, false), "!str64"@),
        ParamV::Curves(c) => seq_node(curve_nodes(c), "!curve"@),
        ParamV::BufferInt(b) => seq_node(int_nodes(b), "!buffer_int"@),
        ParamV::BufferF32(b) => seq_node(float_nodes(b), "!buffer_f32"@),
        ParamV::String256(s) => tagged(text_node(s, false), "!str256"@),
        ParamV::Quat(q) => seq_node(float_nodes(seq![q.a, q.b, q.c, q.d]), "!quat"@),
        ParamV::U32(u) => tagged(hex_node(u as nat), "!u"@),
        ParamV::BufferU32(b) => seq_node(hex_nodes(b), "!buffer_u32"@),
        ParamV::BufferBinary(b) => seq_node(byte_nodes(b), "!buffer_binary"@),
        ParamV::StringRef(s) => text_node(s, needs_quotes(s)),
    }
}

/// Whether a string must be written in quotes.
pub fn string_needs_quotes(s: &str) -> (r: bool)
    ensures
        r == needs_quotes(s@),
{
    if parse_plain(s, -0x8000_0000, 0x7FFF_FFFF).is_some() {
        return true;
    }
    if same_text(s, "true") || same_text(s, "false") || is_null_text(s) {
        return true;
    }
    if looks_like_number(s) {
        return true;
    }
    s.unicode_len() > 0 && s.get_char(0) == '!'
}

/// The nodes of a run of floating-point values.
pub fn write_floats(values: &[u32]) -> (r: Vec<Node>)
    ensures
        nodes_view(r@) == float_nodes(values@),
{
    let mut nodes: Vec<Node> = Vec::new();
    let mut i: usize = 0;
    while i < values.len()
        invariant
            i <= values.len(),
            nodes@.len() == i,
            forall|j: int| 0 <= j < i ==> (#[trigger] nodes@[j])@ == float_node(values@[j]),
        decreases values.len() - i,
    {
        nodes.push(Node::float(values[i]));
        i = i + 1;
    }
    assert(nodes_view(nodes@) =~= float_nodes(values@));
    nodes
}

/// The nodes of a run of signed integers.
pub fn write_ints(values: &[i32]) -> (r: Vec<Node>)
    ensures
        nodes_view(r@) == int_nodes(values@),
{
    let mut nodes: Vec<Node> = Vec::new();
    let mut i: usize = 0;
    while i < values.len()
        invariant
            i <= values.len(),
            nodes@.len() == i,
            forall|j: int| 0 <= j < i ==> (#[trigger] nodes@[j])@ == int_node(values@[j] as int),
        decreases values.len() - i,
    {
        nodes.push(Node::scalar(format_i64(values[i] as i64), false));
        i = i + 1;
    }
    assert(nodes_view(nodes@) =~= int_nodes(values@));
    nodes
}

/// The nodes of a run of unsigned integers.
pub fn write_hex(values: &[u32]) -> (r: Vec<Node>)
    ensures
        nodes_view(r@) == hex_nodes(values@),
{
    let mut nodes: Vec<Node> = Vec::new();
    let mut i: usize = 0;
    while i < values.len()
        invariant
            i <= values.len(),
            nodes@.len() == i,
            forall|j: int| 0 <= j < i ==> (#[trigger] nodes@[j])@ == hex_node(values@[j] as nat),
        decreases values.len() - i,
    {
        nodes.push(Node::scalar(format_hex(values[i]), false));
        i = i + 1;
    }
    assert(nodes_view(nodes@) =~= hex_nodes(values@));
    nodes
}

/// The nodes of a run of bytes.
pub fn write_bytes(values: &[u8]) -> (r: Vec<Node>)
    ensures
        nodes_view(r@) == byte_nodes(values@),
{
    let mut nodes: Vec<Node> = Vec::new();
    let mut i: usize = 0;
    while i < values.len()
        invariant
            i <= values.len(),
            nodes@.len() == i,
            forall|j: int| 0 <= j < i ==> (#[trigger] nodes@[j])@ == hex_node(values@[j] as nat),
        decreases values.len() - i,
    {
        nodes.push(Node::scalar(format_hex(values[i] as u32), false));
        i = i + 1;
    }
    assert(nodes_view(nodes@) =~= byte_nodes(values@));
    nodes
}

/// A tagged sequence on one line.
pub fn write_buf(children: Vec<Node>, tag: &str) -> (r: Node)
    ensures
        r@ == seq_node(nodes_view(children@), tag@),
{
    Node::container(NodeKind::Sequence, true, children).with_tag(tag)
}

/// The sequence that a run of curves is written as.
pub fn write_curves(curves: &[Curve]) -> (r: Node)
    requires
        curves@.len() <= 4,
    ensures
        r@ == seq_node(curve_nodes(curves_view(curves@)), "!curve"@),
{
    let mut nodes: Vec<Node> = Vec::new();
    let mut j: usize = 0;
    while j < curves.len()
        invariant
            j <= curves.len(),
            curves@.len() <= 4,
            nodes@.len() == 32 * j,
            forall|i: int|
                0 <= i < 32 * j ==> (#[trigger] nodes@[i])@ == curve_slot(
                    curves@[i / 32]@,
                    i % 32,
                ),
        decreases curves.len() - j,
    {
        let curve = &curves[j];
        nodes.push(Node::scalar(format_i64(curve.a as i64), false));
        nodes.push(Node::scalar(format_i64(curve.b as i64), false));
        let mut k: usize = 0;
        while k < 30
            invariant
                k <= 30,
                j < curves.len(),
                curves@.len() <= 4,
                *curve == curves@[j as int],
                nodes@.len() == 32 * j + 2 + k,
                forall|i: int|
                    0 <= i < 32 * j + 2 + k ==> (#[trigger] nodes@[i])@ == curve_slot(
                        curves@[i / 32]@,
                        i % 32,
                    ),
            decreases 30 - k,
        {
            nodes.push(Node::float(curve.floats[k]));
            k = k + 1;
        }
        j = j + 1;
    }
    assert(nodes_view(nodes@) =~= curve_nodes(curves_view(curves@)));
    write_buf(nodes, "!curve")
}

/// The node that a leaf is written as.
pub fn write_parameter(param: &Parameter) -> (r: Node)
    ensures
        r@ == encode_param(param@),
{
    match param {
        Parameter::Bool(b) => Node::scalar(
            String::from_str(
                if *b {
                    "true"
                } else {
                    "false"
                },
            ),
            false,
        ),
        Parameter::F32(f) => Node::float(*f),
        Parameter::Int(i) => Node::scalar(format_i64(*i as i64), false),
        Parameter::Vec2(v) => {
            let fields = [v.x, v.y];
            assert(fields@ =~= seq![v.x, v.y]);
            write_buf(write_floats(fields.as_slice()), "!vec2")
        },
        Parameter::Vec3(v) => {
            let fields = [v.x, v.y, v.z];
            assert(fields@ =~= seq![v.x, v.y, v.z]);
            write_buf(write_floats(fields.as_slice()), "!vec3")
        },
        Parameter::Vec4(v) => {
            let fields = [v.x, v.y, v.z, v.t];
            assert(fields@ =~= seq![v.x, v.y, v.z, v.t]);
            write_buf(write_floats(fields.as_slice()), "!vec4")
        },
        Parameter::Color(c) => {
            let fields = [c.r, c.g, c.b, c.a];
            assert(fields@ =~= seq![c.r, c.g, c.b, c.a]);
            write_buf(write_floats(fields.as_slice()), "!color")
        },
        Parameter::String32(s) => Node::scalar(s.clone(), false).with_tag("!str32"),
        Parameter::String64(s) => Node::scalar(s.clone(), false).with_tag("!str64"),
        Parameter::Curve1(c) => write_curves(c.as_slice()),
        Parameter::Curve2(c) => write_curves(c.as_slice()),
        Parameter::Curve3(c) => write_curves(c.as_slice()),
        Parameter::Curve4(c) => write_curves(c.as_slice()),
        Parameter::BufferInt(b) => write_buf(write_ints(b.as_slice()), "!buffer_int"),
        Parameter::BufferF32(b) => write_buf(write_floats(b.as_slice()), "!buffer_f32"),
        Parameter::String256(s) => Node::scalar(s.clone(), false).with_tag("!str256"),
        Parameter::Quat(q) => {
            let fields = [q.a, q.b, q.c, q.d];
            assert(fields@ =~= seq![q.a, q.b, q.c, q.d]);
            write_buf(write_floats(fields.as_slice()), "!quat")
        },
        Parameter::U32(u) => Node::scalar(format_hex(*u), false).with_tag("!u"),
        Parameter::BufferU32(b) => write_buf(write_hex(b.as_slice()), "!buffer_u32"),
        Parameter::BufferBinary(b) => write_buf(write_bytes(b.as_slice()), "!buffer_binary"),
        Parameter::StringRef(s) => {
            let quoted = string_needs_quotes(s.as_str());
            Node::scalar(s.clone(), quoted)
        },
    }
}

/// The hash of the name `param_root`, under which the root list of an archive
/// stands: the parent of the entries of the root list.
pub const ROOT_KEY: u32 = 0xA4F6_CB6C;

/// The key that an entry is written under, and whether the key is quoted,
/// given the name that was found for its hash and what that name reads as:
/// the name, quoted where it reads as an integer; or without a name the
/// decimal text of the hash, unquoted.
pub open spec fn encode_key_of(name: Option<Seq<char>>, hash: u32, parsed: Option<u64>) -> (
    Seq<char>,
    bool,
) {
    match name {
        Some(text) => (text, parsed is Some),
        None => (int_text(hash as int), false),
    }
}

/// The key that an entry is written under, and whether the key is quoted.
pub open spec fn encode_key(name: Option<Seq<char>>, hash: u32) -> (Seq<char>, bool) {
    match name {
        Some(text) => encode_key_of(name, hash, read_u64(text)),
        None => encode_key_of(name, hash, None),
    }
}

/// The same node under a key.
pub open spec fn keyed(node: NodeV, key: (Seq<char>, bool)) -> NodeV {
    NodeV { key: key.0, key_quoted: key.1, ..node }
}

/// A map with these children and this tag.
pub open spec fn map_node(children: Seq<NodeV>, tag: Seq<char>) -> NodeV {
    NodeV { kind: NodeKind::Mapping, children, tag, ..blank() }
}

/// The nodes of the first `count` entries of an object, and the table after
/// they were written. Each entry asks the table for the name of its key, with
/// its position among the entries and the hash of the object.
pub open spec fn encode_params(
    entries: Seq<(u32, ParamV)>,
    parent: u32,
    table: TableV,
    count: nat,
) -> (Seq<NodeV>, TableV)
    decreases count,
{
    if count == 0 {
        (Seq::empty(), table)
    } else {
        let (nodes, t) = encode_params(entries, parent, table, (count - 1) as nat);
        let (hash, value) = entries[count - 1];
        let name = guess(t, hash, (count - 1) as nat, parent);
        (
            nodes.push(keyed(encode_param(value), encode_key(name, hash))),
            after_guess(t, hash, (count - 1) as nat, parent),
        )
    }
}

/// The node of an object, and the table after it was written.
pub open spec fn encode_object(entries: Seq<(u32, ParamV)>, hash: u32, table: TableV) -> (
    NodeV,
    TableV,
) {
    let (nodes, t) = encode_params(entries, hash, table, entries.len());
    (map_node(nodes, "!obj"@), t)
}

/// The nodes of the first `count` objects of a list, and the table after they
/// were written. Each object asks the table for the name of its key before
/// its entries are written.
pub open spec fn encode_objects(
    objects: Seq<(u32, Seq<(u32, ParamV)>)>,
    parent: u32,
    table: TableV,
    count: nat,
) -> (Seq<NodeV>, TableV)
    decreases count,
{
    if count == 0 {
        (Seq::empty(), table)
    } else {
        let (nodes, t) = encode_objects(objects, parent, table, (count - 1) as nat);
        let (hash, object) = objects[count - 1];
        let name = guess(t, hash, (count - 1) as nat, parent);
        let (node, after) = encode_object(
            object,
            hash,
            after_guess(t, hash, (count - 1) as nat, parent),
        );
        (nodes.push(keyed(node, encode_key(name, hash))), after)
    }
}

/// The node of a list, and the table after it was written: a map tagged
/// `!list` with the child `objects` and the child `lists`, written in this
/// order.
pub open spec fn encode_list(list: ListV, hash: u32, table: TableV) -> (NodeV, TableV)
    decreases list, list.lists.len() + 1,
{
    let (objects, t) = encode_objects(list.objects, hash, table, list.objects.len());
    let (lists, after) = encode_lists(list, hash, t, list.lists.len());
    (
        map_node(
            seq![
                keyed(map_node(objects, Seq::empty()), ("objects"@, false)),
                keyed(map_node(lists, Seq::empty()), ("lists"@, false)),
            ],
            "!list"@,
        ),
        after,
    )
}

/// The nodes of the first `count` lists of a list, and the table after they
/// were written.
pub open spec fn encode_lists(list: ListV, parent: u32, table: TableV, count: nat) -> (
    Seq<NodeV>,
    TableV,
)
    decreases list, count,
{
    if count == 0 || count > list.lists.len() {
        (Seq::empty(), table)
    } else {
        let (nodes, t) = encode_lists(list, parent, table, (count - 1) as nat);
        let (hash, child) = list.lists[count - 1];
        let name = guess(t, hash, (count - 1) as nat, parent);
        let (node, after) = encode_list(
            child,
            hash,
            after_guess(t, hash, (count - 1) as nat, parent),
        );
        (nodes.push(keyed(node, encode_key(name, hash))), after)
    }
}

/// The node of an archive, and the table after it was written: a map tagged
/// `!io` with the children `version`, `type` and `param_root`.
pub open spec fn encode_io(io: IoV, table: TableV) -> (NodeV, TableV) {
    let (root, after) = encode_list(io.param_root, ROOT_KEY, table);
    (
        map_node(
            seq![
                keyed(int_node(io.version as int), ("version"@, false)),
                keyed(text_node(io.data_type, false), ("type"@, false)),
                keyed(root, ("param_root"@, false)),
            ],
            "!io"@,
        ),
        after,
    )
}

/// The key that an entry is written under, from the name that was found for
/// its hash and what that name reads as.
pub fn key_fields(name: Option<String>, hash: u32, parsed: Option<u64>) -> (r: (String, bool))
    ensures
        (r.0@, r.1) == encode_key_of(text_of(name), hash, parsed),
{
    match name {
        Some(text) => (text, parsed.is_some()),
        None => (format_i64(hash as i64), false),
    }
}

/// Asks the table for the name of a key and gives the key that the entry is
/// written under.
pub fn write_key(table: &mut NameTable, hash: u32, index: usize, parent: u32) -> (r: (
    String,
    bool,
))
    ensures
        (r.0@, r.1) == encode_key(guess(old(table)@, hash, index as nat, parent), hash),
        final(table)@ == after_guess(old(table)@, hash, index as nat, parent),
{
    let name = table.get_name(hash, index, parent);
    let parsed = match &name {
        Some(text) => parse_u64(text.as_str()),
        None => None,
    };
    key_fields(name, hash, parsed)
}

/// The node that an object is written as. `hash` is the hash of the object.
pub fn write_parameter_object(pobj: &ParameterObject, hash: u32, table: &mut NameTable) -> (r: Node)
    ensures
        r@ == encode_object(pobj@, hash, old(table)@).0,
        final(table)@ == encode_object(pobj@, hash, old(table)@).1,
{
    let mut nodes: Vec<Node> = Vec::new();
    let total = pobj.0.len();
    let mut i: usize = 0;
    assert(nodes_view(nodes@) =~= Seq::empty());
    while i < total
        invariant
            i <= total,
            total == pobj@.len(),
            total == pobj.0@.len(),
            nodes_view(nodes@) == encode_params(pobj@, hash, old(table)@, i as nat).0,
            table@ == encode_params(pobj@, hash, old(table)@, i as nat).1,
        decreases total - i,
    {
        let key = pobj.0.key_at(i);
        let value = pobj.0.value_at(i);
        let ghost before = nodes_view(nodes@);
        let (text, quoted) = write_key(table, key.hash, i, hash);
        let node = write_parameter(value).with_key(text, quoted);
        nodes.push(node);
        assert(nodes_view(nodes@) =~= before.push(node@));
        i = i + 1;
    }
    Node::container(NodeKind::Mapping, false, nodes).with_tag("!obj")
}

/// The nodes that the objects of a list are written as. `parent` is the hash
/// of the list.
pub fn write_objects(objects: &NameMap<ParameterObject>, parent: u32, table: &mut NameTable) -> (r:
    Vec<Node>)
    ensures
        nodes_view(r@) == encode_objects(
            objects_view(objects@),
            parent,
            old(table)@,
            objects@.len(),
        ).0,
        final(table)@ == encode_objects(
            objects_view(objects@),
            parent,
            old(table)@,
            objects@.len(),
        ).1,
{
    let mut nodes: Vec<Node> = Vec::new();
    let total = objects.len();
    let mut i: usize = 0;
    assert(nodes_view(nodes@) =~= Seq::empty());
    while i < total
        invariant
            i <= total,
            total == objects@.len(),
            nodes_view(nodes@) == encode_objects(
                objects_view(objects@),
                parent,
                old(table)@,
                i as nat,
            ).0,
            table@ == encode_objects(objects_view(objects@), parent, old(table)@, i as nat).1,
        decreases total - i,
    {
        let key = objects.key_at(i);
        let value = objects.value_at(i);
        let ghost before = nodes_view(nodes@);
        let (text, quoted) = write_key(table, key.hash, i, parent);
        let node = write_parameter_object(value, key.hash, table).with_key(text, quoted);
        nodes.push(node);
        assert(nodes_view(nodes@) =~= before.push(node@));
        i = i + 1;
    }
    nodes
}

/// The nodes that the lists of a list are written as. `parent` is the hash of
/// the list.
pub fn write_lists(plist: &ParameterList, parent: u32, table: &mut NameTable) -> (r: Vec<Node>)
    ensures
        nodes_view(r@) == encode_lists(plist.view(), parent, old(table)@, plist.lists@.len()).0,
        final(table)@ == encode_lists(plist.view(), parent, old(table)@, plist.lists@.len()).1,
    decreases plist, 0nat,
{
    let mut nodes: Vec<Node> = Vec::new();
    let total = plist.lists.len();
    let mut i: usize = 0;
    assert(nodes_view(nodes@) =~= Seq::empty());
    proof {
        lemma_list_view(*plist);
    }
    while i < total
        invariant
            i <= total,
            total == plist.lists@.len(),
            plist.view().lists == lists_view(plist.lists@),
            nodes_view(nodes@) == encode_lists(plist.view(), parent, old(table)@, i as nat).0,
            table@ == encode_lists(plist.view(), parent, old(table)@, i as nat).1,
        decreases total - i,
    {
        let key = plist.lists.key_at(i);
        let value = plist.lists.value_at(i);
        let ghost before = nodes_view(nodes@);
        let (text, quoted) = write_key(table, key.hash, i, parent);
        proof {
            lemma_child_list_decreases(plist, i as int);
        }
        let node = write_parameter_list(value, key.hash, table).with_key(text, quoted);
        nodes.push(node);
        assert(nodes_view(nodes@) =~= before.push(node@));
        i = i + 1;
    }
    nodes
}

/// The node that a list is written as. `hash` is the hash of the list.
pub fn write_parameter_list(plist: &ParameterList, hash: u32, table: &mut NameTable) -> (r: Node)
    ensures
        r@ == encode_list(plist.view(), hash, old(table)@).0,
        final(table)@ == encode_list(plist.view(), hash, old(table)@).1,
    decreases plist, 1nat,
{
    proof {
        lemma_list_view(*plist);
    }
    let objects = write_objects(&plist.objects, hash, table);
    let lists = write_lists(plist, hash, table);
    let objects_node = Node::container(NodeKind::Mapping, false, objects).with_key(
        String::from_str("objects"),
        false,
    );
    let lists_node = Node::container(NodeKind::Mapping, false, lists).with_key(
        String::from_str("lists"),
        false,
    );
    let mut children: Vec<Node> = Vec::new();
    children.push(objects_node);
    children.push(lists_node);
    proof {
        assert(nodes_view(children@) =~= seq![objects_node@, lists_node@]);
        assert(blank().tag =~= Seq::<char>::empty());
    }
    Node::container(NodeKind::Mapping, false, children).with_tag("!list")
}

/// The node that an archive is written as.
pub fn write_parameter_io(pio: &ParameterIO, table: &mut NameTable) -> (r: Node)
    ensures
        r@ == encode_io(pio@, old(table)@).0,
        final(table)@ == encode_io(pio@, old(table)@).1,
{
    let version = Node::scalar(format_i64(pio.version as i64), false).with_key(
        String::from_str("version"),
        false,
    );
    let data_type = Node::scalar(pio.data_type.clone(), false).with_key(
        String::from_str("type"),
        false,
    );
    let root = write_parameter_list(&pio.param_root, ROOT_KEY, table).with_key(
        String::from_str("param_root"),
        false,
    );
    let mut children: Vec<Node> = Vec::new();
    children.push(version);
    children.push(data_type);
    children.push(root);
    proof {
        assert(nodes_view(children@) =~= seq![version@, data_type@, root@]);
    }
    Node::container(NodeKind::Mapping, false, children).with_tag("!io")
}

} // verus!
