//! What holds of the two walks together, and of the table over time.

use vstd::prelude::*;
use crate::decode::{
    all_curves_ok, all_nums, as_bytes, as_i32s, as_u32s, curve_at, curve_ok, decode_io,
    decode_list, decode_lists, decode_object, decode_objects, decode_param, decode_params,
    key_hash, low32,
    num_of, nums, read_curve_values, read_fixed, DataError, NumKind,
};
use crate::encode::{
    byte_nodes, curve_nodes, curve_slot, encode_io, encode_key, encode_list, encode_lists,
    encode_object, encode_objects, encode_param, encode_params, float_nodes,
    hex_nodes, int_node, int_nodes, keyed, map_node, text_node, ROOT_KEY,
};
use crate::hash::name_hash;
use crate::names::{
    after_guess, consistent, guess, learn, match_child_from, match_numbered_from,
    match_numbered_names, match_parent, match_singular, NumberedV, TableV,
};
use crate::number::{
    lemma_read_num_hex, lemma_read_num_text, lemma_read_plain_text, lemma_read_u64_text,
    read_plain, read_u64,
};
use crate::tree::{child_index, NodeKind, NodeV};
use crate::names::{builtin_table, empty_table, learn_all};
use crate::types::{
    curves_view, distinct_keys, lemma_child_list_decreases, lemma_list_view,
    lemma_position_absent, CurveV, IoV, ListV, ParamV,
    Parameter, ParameterIO, ParameterList, ParameterObject,
};

verus! {

/// Whether a leaf is one that the typed model can hold: a run of curves has
/// one to four curves of thirty floating-point values each.
pub open spec fn valid_param(param: ParamV) -> bool {
    match param {
        ParamV::Curves(curves) => 1 <= curves.len() <= 4 && forall|j: int|
            0 <= j < curves.len() ==> (#[trigger] curves[j]).floats.len() == 30,
        _ => true,
    }
}

/// The tags of scalars differ from each other and from no tag.
pub proof fn lemma_scalar_tags()
    ensures
        "!str32"@ != "!str64"@,
        "!str32"@ != "!str256"@,
        "!str32"@ != "!u"@,
        "!str64"@ != "!str256"@,
        "!str64"@ != "!u"@,
        "!str256"@ != "!u"@,
        "!str32"@.len() > 0,
        "!str64"@.len() > 0,
        "!str256"@.len() > 0,
        "!u"@.len() > 0,
{
    reveal_strlit("!str32");
    reveal_strlit("!str64");
    reveal_strlit("!str256");
    reveal_strlit("!u");
    assert("!str32"@.len() == 6);
    assert("!str64"@.len() == 6);
    assert("!str256"@.len() == 7);
    assert("!u"@.len() == 2);
    assert("!str32"@[4] == '3');
    assert("!str64"@[4] == '6');
}

/// The tags of sequences differ from each other.
pub proof fn lemma_sequence_tags()
    ensures
        "!vec2"@ != "!vec3"@,
        "!vec2"@ != "!vec4"@,
        "!vec2"@ != "!quat"@,
        "!vec2"@ != "!color"@,
        "!vec2"@ != "!curve"@,
        "!vec3"@ != "!vec4"@,
        "!vec3"@ != "!quat"@,
        "!vec3"@ != "!color"@,
        "!vec3"@ != "!curve"@,
        "!vec4"@ != "!quat"@,
        "!vec4"@ != "!color"@,
        "!vec4"@ != "!curve"@,
        "!quat"@ != "!color"@,
        "!quat"@ != "!curve"@,
        "!color"@ != "!curve"@,
        "!buffer_int"@ != "!buffer_f32"@,
        "!buffer_int"@ != "!buffer_u32"@,
        "!buffer_int"@ != "!buffer_binary"@,
        "!buffer_f32"@ != "!buffer_u32"@,
        "!buffer_f32"@ != "!buffer_binary"@,
        "!buffer_u32"@ != "!buffer_binary"@,
        "!buffer_int"@.len() == 11,
        "!buffer_f32"@.len() == 11,
        "!buffer_u32"@.len() == 11,
        "!buffer_binary"@.len() == 14,
        "!vec2"@.len() == 5,
        "!vec3"@.len() == 5,
        "!vec4"@.len() == 5,
        "!quat"@.len() == 5,
        "!color"@.len() == 6,
        "!curve"@.len() == 6,
{
    reveal_strlit("!vec2");
    reveal_strlit("!vec3");
    reveal_strlit("!vec4");
    reveal_strlit("!quat");
    reveal_strlit("!color");
    reveal_strlit("!curve");
    reveal_strlit("!buffer_int");
    reveal_strlit("!buffer_f32");
    reveal_strlit("!buffer_u32");
    reveal_strlit("!buffer_binary");
    assert("!vec2"@[4] == '2');
    assert("!vec3"@[4] == '3');
    assert("!vec4"@[4] == '4');
    assert("!quat"@[4] == 't');
    assert("!color"@[2] == 'o');
    assert("!curve"@[2] == 'u');
    assert("!buffer_int"@[8] == 'i');
    assert("!buffer_f32"@[8] == 'f');
    assert("!buffer_u32"@[8] == 'u');
}

/// A run of floating-point nodes is read as its values.
pub proof fn lemma_float_nodes(values: Seq<u32>)
    ensures
        all_nums(float_nodes(values), NumKind::Float, 0, values.len() as int),
        as_u32s(nums(float_nodes(values), NumKind::Float, 0, values.len() as int)) == values,
{
    let nodes = float_nodes(values);
    assert forall|i: int| 0 <= i < values.len() implies (#[trigger] num_of(
        nodes[i],
        NumKind::Float,
    )) == Some(values[i] as int) by {}
    assert(as_u32s(nums(nodes, NumKind::Float, 0, values.len() as int)) =~= values);
}

/// A record of floating-point fields is read as its fields.
pub proof fn lemma_fixed(values: Seq<u32>)
    ensures
        read_fixed(float_nodes(values), values.len() as int) == Ok::<Seq<u32>, DataError>(values),
{
    lemma_float_nodes(values);
}

/// A run of integer nodes is read as its values.
pub proof fn lemma_int_nodes(values: Seq<i32>)
    ensures
        all_nums(int_nodes(values), NumKind::Int, 0, values.len() as int),
        as_i32s(nums(int_nodes(values), NumKind::Int, 0, values.len() as int)) == values,
{
    let nodes = int_nodes(values);
    assert forall|i: int| 0 <= i < values.len() implies (#[trigger] num_of(
        nodes[i],
        NumKind::Int,
    )) == Some(values[i] as int) by {
        lemma_read_num_text(values[i] as int, true, i32::MIN as int, i32::MAX as int);
    }
    assert(as_i32s(nums(nodes, NumKind::Int, 0, values.len() as int)) =~= values);
}

/// A run of hexadecimal nodes is read as its values.
pub proof fn lemma_hex_nodes(values: Seq<u32>)
    ensures
        all_nums(hex_nodes(values), NumKind::U32, 0, values.len() as int),
        as_u32s(nums(hex_nodes(values), NumKind::U32, 0, values.len() as int)) == values,
{
    let nodes = hex_nodes(values);
    assert forall|i: int| 0 <= i < values.len() implies (#[trigger] num_of(
        nodes[i],
        NumKind::U32,
    )) == Some(values[i] as int) by {
        lemma_read_num_hex(values[i] as nat, 0, u32::MAX as int);
    }
    assert(as_u32s(nums(nodes, NumKind::U32, 0, values.len() as int)) =~= values);
}

/// A run of byte nodes is read as its values.
pub proof fn lemma_byte_nodes(values: Seq<u8>)
    ensures
        all_nums(byte_nodes(values), NumKind::Byte, 0, values.len() as int),
        as_bytes(nums(byte_nodes(values), NumKind::Byte, 0, values.len() as int)) == values,
{
    let nodes = byte_nodes(values);
    assert forall|i: int| 0 <= i < values.len() implies (#[trigger] num_of(
        nodes[i],
        NumKind::Byte,
    )) == Some(values[i] as int) by {
        lemma_read_num_hex(values[i] as nat, 0, u8::MAX as int);
    }
    assert(as_bytes(nums(nodes, NumKind::Byte, 0, values.len() as int)) =~= values);
}

/// The node that stands at slot `k` of curve `j`.
pub proof fn lemma_curve_slot(curves: Seq<CurveV>, j: int, k: int)
    requires
        0 <= j < curves.len(),
        0 <= k < 32,
    ensures
        curve_nodes(curves).len() == 32 * curves.len(),
        curve_nodes(curves)[32 * j + k] == curve_slot(curves[j], k),
{
    assert((32 * j + k) / 32 == j);
    assert((32 * j + k) % 32 == k);
}

/// Curve `j` of the nodes of a run of curves is read as that curve.
pub proof fn lemma_curve_at(curves: Seq<CurveV>, j: int)
    requires
        0 <= j < curves.len(),
        curves[j].floats.len() == 30,
    ensures
        curve_ok(curve_nodes(curves), j),
        curve_at(curve_nodes(curves), j) == curves[j],
{
    let nodes = curve_nodes(curves);
    let c = curves[j];
    lemma_curve_slot(curves, j, 0);
    lemma_curve_slot(curves, j, 1);
    lemma_read_num_text(c.a as int, false, 0, u32::MAX as int);
    lemma_read_num_text(c.b as int, false, 0, u32::MAX as int);
    assert(num_of(nodes[32 * j], NumKind::U32) == Some(c.a as int));
    assert(num_of(nodes[32 * j + 1], NumKind::U32) == Some(c.b as int));
    assert forall|i: int| 32 * j <= i < 32 * j + 2 implies (#[trigger] num_of(
        nodes[i],
        NumKind::U32,
    )) is Some by {
        if i == 32 * j {
        } else {
            assert(i == 32 * j + 1);
        }
    }
    assert forall|i: int| 32 * j + 2 <= i < 32 * j + 32 implies (#[trigger] num_of(
        nodes[i],
        NumKind::Float,
    )) == Some(c.floats[i - 32 * j - 2] as int) by {
        lemma_curve_slot(curves, j, i - 32 * j);
    }
    let floats = as_u32s(nums(nodes, NumKind::Float, 32 * j + 2, 32 * j + 32));
    assert(floats.len() == 30);
    assert forall|k: int| 0 <= k < 30 implies floats[k] == c.floats[k] by {
        assert(num_of(nodes[32 * j + 2 + k], NumKind::Float) == Some(c.floats[k] as int));
    }
    assert(floats =~= c.floats);
}

/// The nodes of a run of curves are read as the curves.
pub proof fn lemma_curve_nodes(curves: Seq<CurveV>)
    requires
        valid_param(ParamV::Curves(curves)),
    ensures
        read_curve_values(curve_nodes(curves)) == Ok::<Seq<CurveV>, DataError>(curves),
{
    let nodes = curve_nodes(curves);
    assert(nodes.len() == 32 * curves.len());
    assert(nodes.len() / 32 == curves.len());
    assert forall|j: int| 0 <= j < nodes.len() / 32 implies #[trigger] curve_ok(nodes, j) by {
        lemma_curve_at(curves, j);
    }
    assert forall|j: int| 0 <= j < curves.len() implies curve_at(nodes, j) == curves[j] by {
        lemma_curve_at(curves, j);
    }
    assert(Seq::new(nodes.len() / 32, |j: int| curve_at(nodes, j)) =~= curves);
}

/// A leaf that is written and read again is the same leaf.
pub proof fn law_leaf_round_trip(param: ParamV)
    requires
        valid_param(param),
    ensures
        decode_param(encode_param(param)) == Ok::<ParamV, DataError>(param),
{
    lemma_scalar_tags();
    lemma_sequence_tags();
    let node = encode_param(param);
    match param {
        ParamV::Bool(b) => {
            reveal_strlit("true");
            reveal_strlit("false");
            let text = node.text;
            assert(text[0] == 't' || text[0] == 'f');
            assert(text.skip(0) =~= text);
            assert(read_plain(text, i32::MIN as int, i32::MAX as int) is None);
            assert("true"@ != "false"@);
        },
        ParamV::F32(f) => {
            assert(node.text.skip(0) =~= node.text);
        },
        ParamV::Int(i) => {
            lemma_read_plain_text(i as int, i32::MIN as int, i32::MAX as int);
        },
        ParamV::Vec2(v) => {
            lemma_fixed(seq![v.x, v.y]);
        },
        ParamV::Vec3(v) => {
            lemma_fixed(seq![v.x, v.y, v.z]);
        },
        ParamV::Vec4(v) => {
            lemma_fixed(seq![v.x, v.y, v.z, v.t]);
        },
        ParamV::Color(c) => {
            lemma_fixed(seq![c.r, c.g, c.b, c.a]);
        },
        ParamV::Quat(q) => {
            lemma_fixed(seq![q.a, q.b, q.c, q.d]);
        },
        ParamV::String32(s) => {},
        ParamV::String64(s) => {},
        ParamV::String256(s) => {},
        ParamV::Curves(c) => {
            lemma_curve_nodes(c);
        },
        ParamV::BufferInt(b) => {
            lemma_int_nodes(b);
        },
        ParamV::BufferF32(b) => {
            lemma_float_nodes(b);
        },
        ParamV::U32(u) => {
            lemma_read_num_hex(u as nat, 0, u32::MAX as int);
        },
        ParamV::BufferU32(b) => {
            lemma_hex_nodes(b);
        },
        ParamV::BufferBinary(b) => {
            lemma_byte_nodes(b);
        },
        ParamV::StringRef(s) => {},
    }
}

/// A name that is found for a prefix has the hash that was asked for.
pub proof fn lemma_match_child(prefix: Seq<char>, pos: nat, hash: u32, k: int)
    ensures
        match_child_from(prefix, pos, hash, k) matches Some(name) ==> name_hash(name) == hash,
    decreases crate::names::CHILD_PATTERNS - k,
{
    if 0 <= k < crate::names::CHILD_PATTERNS {
        lemma_match_child(prefix, pos, hash, k + 1);
    }
}

/// A name that the parent's name leads to has the hash that was asked for.
pub proof fn lemma_match_parent(parent: Seq<char>, pos: nat, hash: u32)
    ensures
        match_parent(parent, pos, hash) matches Some(name) ==> name_hash(name) == hash,
{
    lemma_match_child(parent, pos, hash, 0);
    lemma_match_child(crate::names::children_text(), pos, hash, 0);
    lemma_match_child(crate::names::child_text(), pos, hash, 0);
    lemma_match_singular(parent, seq!['s'], pos, hash);
    lemma_match_singular(parent, seq!['e', 's'], pos, hash);
    lemma_match_singular(parent, seq!['L', 'i', 's', 't'], pos, hash);
}

/// A name that is found for a singular has the hash that was asked for.
pub proof fn lemma_match_singular(parent: Seq<char>, suffix: Seq<char>, pos: nat, hash: u32)
    ensures
        match_singular(parent, suffix, pos, hash) matches Some(name) ==> name_hash(name) == hash,
{
    match crate::text::strip_suffix(parent, suffix) {
        Some(singular) => {
            lemma_match_child(singular, pos, hash, 0);
        },
        None => {},
    }
}

/// A name that a numbered name gives has the hash that was asked for.
pub proof fn lemma_match_numbered(numbered: NumberedV, hash: u32, from: nat, limit: nat)
    ensures
        match_numbered_from(numbered, hash, from, limit) matches Some(name) ==> name_hash(name)
            == hash,
    decreases limit - from,
{
    if from < limit {
        lemma_match_numbered(numbered, hash, from + 1, limit);
    }
}

/// A name that the numbered names give has the hash that was asked for.
pub proof fn lemma_match_numbered_names(numbered: Seq<NumberedV>, hash: u32, limit: nat, k: int)
    ensures
        match_numbered_names(numbered, hash, limit, k) matches Some(name) ==> name_hash(name)
            == hash,
    decreases numbered.len() - k,
{
    if 0 <= k < numbered.len() {
        lemma_match_numbered(numbered[k], hash, 0, limit);
        lemma_match_numbered_names(numbered, hash, limit, k + 1);
    }
}

/// A table whose names stand under their hashes gives only names that have
/// the hash that was asked for, and stays such a table.
pub proof fn law_names_have_their_hash(table: TableV, hash: u32, index: nat, parent_hash: u32)
    requires
        consistent(table),
    ensures
        guess(table, hash, index, parent_hash) matches Some(name) ==> name_hash(name) == hash,
        consistent(after_guess(table, hash, index, parent_hash)),
{
    if table.names.contains_key(parent_hash) {
        lemma_match_parent(table.names[parent_hash], index, hash);
    }
    lemma_match_numbered_names(table.numbered, hash, index + 2, 0);
}

/// The table answers the same question the same way: asked again, it gives
/// the name it gave before, and it does not change any more.
pub proof fn law_lookup_repeats(table: TableV, hash: u32, index: nat, parent_hash: u32)
    ensures
        guess(after_guess(table, hash, index, parent_hash), hash, index, parent_hash) == guess(
            table,
            hash,
            index,
            parent_hash,
        ),
        after_guess(after_guess(table, hash, index, parent_hash), hash, index, parent_hash)
            == after_guess(table, hash, index, parent_hash),
{
    let after = after_guess(table, hash, index, parent_hash);
    if guess(table, hash, index, parent_hash) is None {
        assert(after == table);
    } else {
        assert(after.names.contains_key(hash));
    }
}

/// A name that the table holds stays, whatever the table is asked or told.
pub proof fn law_names_stay(
    table: TableV,
    hash: u32,
    index: nat,
    parent_hash: u32,
    told: Seq<char>,
    held: u32,
)
    requires
        table.names.contains_key(held),
    ensures
        after_guess(table, hash, index, parent_hash).names.contains_key(held),
        after_guess(table, hash, index, parent_hash).names[held] == table.names[held],
        learn(table, hash, told).names.contains_key(held),
        learn(table, hash, told).names[held] == table.names[held],
        after_guess(table, hash, index, parent_hash).numbered == table.numbered,
{
}

/// A value of 32 bits is the low 32 bits of itself in 64 bits.
pub proof fn lemma_low32(hash: u32)
    ensures
        low32(hash as u64) == hash,
{
    assert((hash as u64 & 0xFFFF_FFFF) as u32 == hash) by (bit_vector);
}

/// The key that an entry is written under is read as the hash of the entry:
/// a name that reads as an integer is quoted, and so taken as a name; a hash
/// without a name is written in decimal, and so taken as a hash.
pub proof fn law_key_round_trip(name: Option<Seq<char>>, hash: u32)
    requires
        name matches Some(text) ==> name_hash(text) == hash,
    ensures
        key_hash(encode_key(name, hash).0, encode_key(name, hash).1) == hash,
        name matches Some(text) ==> encode_key(name, hash).0 == text && (encode_key(name, hash).1
            <==> read_u64(text) is Some),
{
    match name {
        Some(text) => {},
        None => {
            lemma_read_u64_text(hash as nat);
            lemma_low32(hash);
        },
    }
}

/// Whether an object is one that the typed model can hold: no key twice, and
/// every leaf valid.
pub open spec fn valid_object(entries: Seq<(u32, ParamV)>) -> bool {
    distinct_keys(entries) && forall|i: int|
        0 <= i < entries.len() ==> valid_param((#[trigger] entries[i]).1)
}

/// Whether a list is one that the typed model can hold: no key twice among
/// its objects nor among its lists, and every object and every list valid.
pub open spec fn valid_list(list: ListV) -> bool
    decreases list,
{
    &&& distinct_keys(list.objects)
    &&& forall|i: int| 0 <= i < list.objects.len() ==> valid_object((#[trigger] list.objects[i]).1)
    &&& distinct_keys(list.lists)
    &&& forall|i: int|
        0 <= i < list.lists.len() ==> valid_list((#[trigger] list.lists[i]).1)
}

/// Whether an archive is one that the typed model can hold.
pub open spec fn valid_io(io: IoV) -> bool {
    valid_list(io.param_root)
}

/// Entries whose keys all differ are read back from nodes that hold them one
/// by one.
pub proof fn lemma_decode_params_of(nodes: Seq<NodeV>, entries: Seq<(u32, ParamV)>, count: nat)
    requires
        count <= nodes.len(),
        count <= entries.len(),
        distinct_keys(entries),
        forall|j: int|
            0 <= j < count ==> decode_param(#[trigger] nodes[j]) == Ok::<ParamV, DataError>(
                entries[j].1,
            ) && key_hash(nodes[j].key, nodes[j].key_quoted) == entries[j].0,
    ensures
        decode_params(nodes, count) == Ok::<Seq<(u32, ParamV)>, DataError>(
            entries.take(count as int),
        ),
    decreases count,
{
    if count == 0 {
        assert(entries.take(0) =~= Seq::empty());
    } else {
        lemma_decode_params_of(nodes, entries, (count - 1) as nat);
        let before = entries.take(count - 1);
        let last = entries[count - 1];
        assert forall|j: int| 0 <= j < before.len() implies (#[trigger] before[j]).0 != last.0 by {
            assert(before[j] == entries[j]);
        }
        lemma_position_absent(before, last.0);
        assert(decode_param(nodes[count - 1]) == Ok::<ParamV, DataError>(last.1));
        assert(before.push(last) =~= entries.take(count as int));
    }
}

/// Objects whose keys all differ are read back from nodes that hold them one
/// by one.
pub proof fn lemma_decode_objects_of(
    nodes: Seq<NodeV>,
    objects: Seq<(u32, Seq<(u32, ParamV)>)>,
    count: nat,
)
    requires
        count <= nodes.len(),
        count <= objects.len(),
        distinct_keys(objects),
        forall|j: int|
            0 <= j < count ==> decode_object(#[trigger] nodes[j]) == Ok::<
                Seq<(u32, ParamV)>,
                DataError,
            >(objects[j].1) && key_hash(nodes[j].key, nodes[j].key_quoted) == objects[j].0,
    ensures
        decode_objects(nodes, count) == Ok::<Seq<(u32, Seq<(u32, ParamV)>)>, DataError>(
            objects.take(count as int),
        ),
    decreases count,
{
    if count == 0 {
        assert(objects.take(0) =~= Seq::empty());
    } else {
        lemma_decode_objects_of(nodes, objects, (count - 1) as nat);
        let before = objects.take(count - 1);
        let last = objects[count - 1];
        assert forall|j: int| 0 <= j < before.len() implies (#[trigger] before[j]).0 != last.0 by {
            assert(before[j] == objects[j]);
        }
        lemma_position_absent(before, last.0);
        assert(decode_object(nodes[count - 1]) == Ok::<Seq<(u32, ParamV)>, DataError>(last.1));
        assert(before.push(last) =~= objects.take(count as int));
    }
}

/// Lists whose keys all differ are read back from the children of a node that
/// hold them one by one.
pub proof fn lemma_decode_lists_of(node: NodeV, lists: Seq<(u32, ListV)>, count: nat)
    requires
        count <= node.children.len(),
        count <= lists.len(),
        distinct_keys(lists),
        forall|j: int|
            0 <= j < count ==> decode_list(#[trigger] node.children[j]) == Ok::<ListV, DataError>(
                lists[j].1,
            ) && key_hash(node.children[j].key, node.children[j].key_quoted) == lists[j].0,
    ensures
        decode_lists(node, count) == Ok::<Seq<(u32, ListV)>, DataError>(lists.take(count as int)),
    decreases count,
{
    if count == 0 {
        assert(lists.take(0) =~= Seq::empty());
    } else {
        lemma_decode_lists_of(node, lists, (count - 1) as nat);
        let before = lists.take(count - 1);
        let last = lists[count - 1];
        assert forall|j: int| 0 <= j < before.len() implies (#[trigger] before[j]).0 != last.0 by {
            assert(before[j] == lists[j]);
        }
        lemma_position_absent(before, last.0);
        assert(decode_list(node.children[count - 1]) == Ok::<ListV, DataError>(last.1));
        assert(before.push(last) =~= lists.take(count as int));
    }
}

/// The nodes that the entries of an object are written as hold the entries
/// one by one, and the table stays one whose names stand under their hashes.
pub proof fn lemma_encode_params(
    entries: Seq<(u32, ParamV)>,
    parent: u32,
    table: TableV,
    count: nat,
)
    requires
        count <= entries.len(),
        consistent(table),
        forall|i: int| 0 <= i < entries.len() ==> valid_param((#[trigger] entries[i]).1),
    ensures
        encode_params(entries, parent, table, count).0.len() == count,
        consistent(encode_params(entries, parent, table, count).1),
        forall|j: int|
            0 <= j < count ==> decode_param(
                #[trigger] encode_params(entries, parent, table, count).0[j],
            ) == Ok::<ParamV, DataError>(entries[j].1) && key_hash(
                encode_params(entries, parent, table, count).0[j].key,
                encode_params(entries, parent, table, count).0[j].key_quoted,
            ) == entries[j].0,
    decreases count,
{
    if count > 0 {
        lemma_encode_params(entries, parent, table, (count - 1) as nat);
        let (nodes, t) = encode_params(entries, parent, table, (count - 1) as nat);
        let (hash, value) = entries[count - 1];
        let name = guess(t, hash, (count - 1) as nat, parent);
        law_names_have_their_hash(t, hash, (count - 1) as nat, parent);
        law_key_round_trip(name, hash);
        law_leaf_round_trip(value);
        let node = keyed(encode_param(value), encode_key(name, hash));
        assert(decode_param(node) == decode_param(encode_param(value)));
        let all = encode_params(entries, parent, table, count).0;
        assert(all == nodes.push(node));
        assert forall|j: int| 0 <= j < count implies decode_param(#[trigger] all[j]) == Ok::<
            ParamV,
            DataError,
        >(entries[j].1) && key_hash(all[j].key, all[j].key_quoted) == entries[j].0 by {
            if j < count - 1 {
                assert(all[j] == nodes[j]);
            }
        }
    }
}

/// An object that is written and read again is the same object.
pub proof fn law_object_round_trip(entries: Seq<(u32, ParamV)>, hash: u32, table: TableV)
    requires
        valid_object(entries),
        consistent(table),
    ensures
        decode_object(encode_object(entries, hash, table).0) == Ok::<Seq<(u32, ParamV)>, DataError>(
            entries,
        ),
        consistent(encode_object(entries, hash, table).1),
{
    lemma_encode_params(entries, hash, table, entries.len());
    let nodes = encode_params(entries, hash, table, entries.len()).0;
    lemma_decode_params_of(nodes, entries, entries.len());
    assert(entries.take(entries.len() as int) =~= entries);
}

/// The nodes that the objects of a list are written as hold the objects one
/// by one, and the table stays one whose names stand under their hashes.
pub proof fn lemma_encode_objects(
    objects: Seq<(u32, Seq<(u32, ParamV)>)>,
    parent: u32,
    table: TableV,
    count: nat,
)
    requires
        count <= objects.len(),
        consistent(table),
        forall|i: int| 0 <= i < objects.len() ==> valid_object((#[trigger] objects[i]).1),
    ensures
        encode_objects(objects, parent, table, count).0.len() == count,
        consistent(encode_objects(objects, parent, table, count).1),
        forall|j: int|
            0 <= j < count ==> decode_object(
                #[trigger] encode_objects(objects, parent, table, count).0[j],
            ) == Ok::<Seq<(u32, ParamV)>, DataError>(objects[j].1) && key_hash(
                encode_objects(objects, parent, table, count).0[j].key,
                encode_objects(objects, parent, table, count).0[j].key_quoted,
            ) == objects[j].0,
    decreases count,
{
    if count > 0 {
        lemma_encode_objects(objects, parent, table, (count - 1) as nat);
        let (nodes, t) = encode_objects(objects, parent, table, (count - 1) as nat);
        let (hash, object) = objects[count - 1];
        let name = guess(t, hash, (count - 1) as nat, parent);
        let t1 = after_guess(t, hash, (count - 1) as nat, parent);
        law_names_have_their_hash(t, hash, (count - 1) as nat, parent);
        law_key_round_trip(name, hash);
        law_object_round_trip(object, hash, t1);
        let inner = encode_object(object, hash, t1).0;
        let node = keyed(inner, encode_key(name, hash));
        assert(decode_object(node) == decode_object(inner));
        let all = encode_objects(objects, parent, table, count).0;
        assert(all == nodes.push(node));
        assert forall|j: int| 0 <= j < count implies decode_object(#[trigger] all[j]) == Ok::<
            Seq<(u32, ParamV)>,
            DataError,
        >(objects[j].1) && key_hash(all[j].key, all[j].key_quoted) == objects[j].0 by {
            if j < count - 1 {
                assert(all[j] == nodes[j]);
            }
        }
    }
}

/// The keys of the children of a list and of an archive differ.
pub proof fn lemma_child_keys()
    ensures
        "objects"@ != "lists"@,
        "version"@ != "type"@,
        "version"@ != "param_root"@,
        "type"@ != "param_root"@,
{
    reveal_strlit("objects");
    reveal_strlit("lists");
    reveal_strlit("version");
    reveal_strlit("type");
    reveal_strlit("param_root");
    assert("objects"@.len() == 7);
    assert("lists"@.len() == 5);
    assert("version"@.len() == 7);
    assert("type"@.len() == 4);
    assert("param_root"@.len() == 10);
}

/// The nodes that the lists of a list are written as hold the lists one by
/// one, and the table stays one whose names stand under their hashes.
pub proof fn lemma_encode_lists(list: ListV, parent: u32, table: TableV, count: nat)
    requires
        count <= list.lists.len(),
        consistent(table),
        valid_list(list),
    ensures
        encode_lists(list, parent, table, count).0.len() == count,
        consistent(encode_lists(list, parent, table, count).1),
        forall|j: int|
            0 <= j < count ==> decode_list(
                #[trigger] encode_lists(list, parent, table, count).0[j],
            ) == Ok::<ListV, DataError>(list.lists[j].1) && key_hash(
                encode_lists(list, parent, table, count).0[j].key,
                encode_lists(list, parent, table, count).0[j].key_quoted,
            ) == list.lists[j].0,
    decreases list, count,
{
    if count > 0 {
        lemma_encode_lists(list, parent, table, (count - 1) as nat);
        let (nodes, t) = encode_lists(list, parent, table, (count - 1) as nat);
        let (hash, child) = list.lists[count - 1];
        let name = guess(t, hash, (count - 1) as nat, parent);
        let t1 = after_guess(t, hash, (count - 1) as nat, parent);
        law_names_have_their_hash(t, hash, (count - 1) as nat, parent);
        law_key_round_trip(name, hash);
        assert(valid_list(list.lists[count - 1].1));
        law_list_round_trip(child, hash, t1);
        let inner = encode_list(child, hash, t1).0;
        let node = keyed(inner, encode_key(name, hash));
        lemma_decode_list_keyed(inner, encode_key(name, hash));
        let all = encode_lists(list, parent, table, count).0;
        assert(all == nodes.push(node));
        assert forall|j: int| 0 <= j < count implies decode_list(#[trigger] all[j]) == Ok::<
            ListV,
            DataError,
        >(list.lists[j].1) && key_hash(all[j].key, all[j].key_quoted) == list.lists[j].0 by {
            if j < count - 1 {
                assert(all[j] == nodes[j]);
            }
        }
    }
}

/// What a node holds as a list does not depend on the key of the node.
pub proof fn lemma_decode_list_keyed(node: NodeV, key: (Seq<char>, bool))
    ensures
        decode_list(keyed(node, key)) == decode_list(node),
{
    assert(keyed(node, key).children == node.children);
    assert(keyed(node, key).kind == node.kind);
}

/// A list that is written and read again is the same list.
pub proof fn law_list_round_trip(list: ListV, hash: u32, table: TableV)
    requires
        valid_list(list),
        consistent(table),
    ensures
        decode_list(encode_list(list, hash, table).0) == Ok::<ListV, DataError>(list),
        consistent(encode_list(list, hash, table).1),
    decreases list, list.lists.len() + 1,
{
    lemma_child_keys();
    lemma_encode_objects(list.objects, hash, table, list.objects.len());
    let (objects, t) = encode_objects(list.objects, hash, table, list.objects.len());
    lemma_encode_lists(list, hash, t, list.lists.len());
    let (lists, after) = encode_lists(list, hash, t, list.lists.len());
    let objects_node = keyed(map_node(objects, Seq::empty()), ("objects"@, false));
    let lists_node = keyed(map_node(lists, Seq::empty()), ("lists"@, false));
    let node = encode_list(list, hash, table).0;
    let children = seq![objects_node, lists_node];
    assert(node.children == children);
    assert(children[0].key == "objects"@);
    assert(children[1].key == "lists"@);
    assert(child_index(children, "lists"@, 1) == Some(1int));
    assert(child_index(children, "lists"@, 0) == Some(1int));
    assert(child_index(children, "objects"@, 0) == Some(0int));
    lemma_decode_objects_of(objects, list.objects, list.objects.len());
    assert(list.objects.take(list.objects.len() as int) =~= list.objects);
    lemma_decode_lists_of(lists_node, list.lists, list.lists.len());
    assert(list.lists.take(list.lists.len() as int) =~= list.lists);
}

/// The round trip: an archive that is written and read again is the same
/// archive, whatever names the table holds, as long as each stands under its
/// own hash.
pub proof fn law_round_trip(io: IoV, table: TableV)
    requires
        valid_io(io),
        consistent(table),
    ensures
        decode_io(encode_io(io, table).0) == Ok::<IoV, DataError>(io),
        consistent(encode_io(io, table).1),
{
    lemma_child_keys();
    law_list_round_trip(io.param_root, ROOT_KEY, table);
    let root = encode_list(io.param_root, ROOT_KEY, table).0;
    let node = encode_io(io, table).0;
    let children = seq![
        keyed(int_node(io.version as int), ("version"@, false)),
        keyed(text_node(io.data_type, false), ("type"@, false)),
        keyed(root, ("param_root"@, false)),
    ];
    assert(node.children == children);
    assert(children[0].key == "version"@);
    assert(children[1].key == "type"@);
    assert(children[2].key == "param_root"@);
    assert(child_index(children, "version"@, 0) == Some(0int));
    assert(child_index(children, "type"@, 1) == Some(1int));
    assert(child_index(children, "type"@, 0) == Some(1int));
    assert(child_index(children, "param_root"@, 2) == Some(2int));
    assert(child_index(children, "param_root"@, 1) == Some(2int));
    assert(child_index(children, "param_root"@, 0) == Some(2int));
    lemma_read_num_text(io.version as int, false, 0, u32::MAX as int);
    lemma_decode_list_keyed(root, ("param_root"@, false));
}

/// Every leaf of the typed model is valid.
pub proof fn lemma_param_valid(param: Parameter)
    ensures
        valid_param(param@),
{
    match param {
        Parameter::Curve1(c) => {
            assert(curves_view(c@).len() == 1);
        },
        Parameter::Curve2(c) => {
            assert(curves_view(c@).len() == 2);
        },
        Parameter::Curve3(c) => {
            assert(curves_view(c@).len() == 3);
        },
        Parameter::Curve4(c) => {
            assert(curves_view(c@).len() == 4);
        },
        _ => {},
    }
}

/// An object without a key twice is valid.
pub proof fn lemma_object_valid(object: ParameterObject)
    requires
        object.wf(),
    ensures
        valid_object(object@),
{
    let entries = object@;
    assert forall|i: int, j: int| 0 <= i < j < entries.len() implies (#[trigger] entries[i]).0 != (
    #[trigger] entries[j]).0 by {
        assert(object.0@[i].0 != object.0@[j].0);
    }
    assert forall|i: int| 0 <= i < entries.len() implies valid_param((#[trigger] entries[i]).1) by {
        lemma_param_valid(object.0@[i].1);
    }
}

/// A list without a key twice in any of its maps is valid.
pub proof fn lemma_list_valid(list: ParameterList)
    requires
        list.wf(),
    ensures
        valid_list(list.view()),
    decreases list,
{
    lemma_list_view(list);
    let v = list.view();
    assert forall|i: int, j: int| 0 <= i < j < v.objects.len() implies (#[trigger] v.objects[i]).0
        != (#[trigger] v.objects[j]).0 by {
        assert(list.objects@[i].0 != list.objects@[j].0);
    }
    assert forall|i: int| 0 <= i < v.objects.len() implies valid_object(
        (#[trigger] v.objects[i]).1,
    ) by {
        assert(list.objects@[i].1.wf());
        lemma_object_valid(list.objects@[i].1);
    }
    assert forall|i: int, j: int| 0 <= i < j < v.lists.len() implies (#[trigger] v.lists[i]).0 != (
    #[trigger] v.lists[j]).0 by {
        assert(list.lists@[i].0 != list.lists@[j].0);
    }
    assert forall|i: int| 0 <= i < v.lists.len() implies valid_list((#[trigger] v.lists[i]).1) by {
        assert(list.lists@[i].1.wf());
        lemma_child_list_decreases(&list, i);
        lemma_list_valid(list.lists@[i].1);
    }
}

/// The round trip, of an archive of the typed model: written with any table
/// whose names stand under their hashes and read again, it is the same
/// archive.
pub proof fn law_archive_round_trip(io: ParameterIO, table: TableV)
    requires
        io.wf(),
        consistent(table),
    ensures
        decode_io(encode_io(io@, table).0) == Ok::<IoV, DataError>(io@),
{
    lemma_list_valid(io.param_root);
    law_round_trip(io@, table);
}

/// An unsigned value is written in hexadecimal under the tag `!u`, and is
/// read back as the same value, whatever the value.
pub proof fn law_unsigned_round_trip(x: u32)
    ensures
        encode_param(ParamV::U32(x)).tag == "!u"@,
        encode_param(ParamV::U32(x)).text == crate::number::hex_text(x as nat),
        decode_param(encode_param(ParamV::U32(x))) == Ok::<ParamV, DataError>(ParamV::U32(x)),
{
    law_leaf_round_trip(ParamV::U32(x));
}

/// The number of values of a curve sequence decides what it is read as: with
/// 32, 64, 96 or 128 values that can all be read it is one curve for every
/// 32 values, and with any other number of values it is an error.
pub proof fn law_curve_count(node: NodeV)
    requires
        node.kind == NodeKind::Sequence,
        node.tag == "!curve"@,
    ensures
        ({
            let n = node.children.len();
            if n != 32 && n != 64 && n != 96 && n != 128 {
                decode_param(node) == Err::<ParamV, DataError>(DataError::CurveCount)
            } else if all_curves_ok(node.children) {
                decode_param(node) matches Ok(ParamV::Curves(curves)) && curves.len() == n / 32
            } else {
                decode_param(node) == Err::<ParamV, DataError>(DataError::BadNumber)
            }
        }),
{
    lemma_sequence_tags();
}

/// A table that is told a name under the hash of the name stays one whose
/// names stand under their hashes.
pub proof fn law_learn_consistent(table: TableV, name: Seq<char>)
    requires
        consistent(table),
    ensures
        consistent(learn(table, name_hash(name), name)),
{
}

/// A table that is told names under their hashes, one after the other, is one
/// whose names stand under their hashes.
pub proof fn lemma_learn_all_consistent(table: TableV, names: Seq<Seq<char>>)
    requires
        consistent(table),
    ensures
        consistent(learn_all(table, names)),
    decreases names.len(),
{
    if names.len() > 0 {
        lemma_learn_all_consistent(table, names.drop_last());
        law_learn_consistent(learn_all(table, names.drop_last()), names.last());
    }
}

/// The names of a new table stand under their hashes, with or without the
/// built-in names.
pub proof fn law_new_table_consistent()
    ensures
        consistent(empty_table()),
        consistent(builtin_table()),
{
    lemma_learn_all_consistent(empty_table(), crate::names::builtin_names());
}

/// A string is read back as that string whatever floating-point number the
/// reader of the document gives its text: quotes are set wherever the text
/// could be taken for something else.
pub proof fn law_string_round_trip(s: Seq<char>, number: Option<u32>)
    ensures
        decode_param(NodeV { number, ..encode_param(ParamV::StringRef(s)) }) == Ok::<
            ParamV,
            DataError,
        >(ParamV::StringRef(s)),
{
    lemma_scalar_tags();
}

} // verus!
