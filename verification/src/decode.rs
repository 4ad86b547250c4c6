//! From a tree of text nodes to the typed model.

use vstd::prelude::*;
use crate::hash::{hash_name, name_hash, Name};
use crate::number::{
    looks_like_number, looks_numeric, parse_num, parse_plain, parse_u64, read_num, read_plain,
    read_u64,
};
use vstd::string::StrSliceExecFns;
use crate::text::same_text;
use crate::tree::{child_index, lemma_child_index, Node, NodeKind, NodeV};
use crate::types::{
    inserted, lemma_inserted_all, lemma_list_view, lemma_lists_inserted, lemma_objects_inserted,
    lemma_params_inserted, lists_view, objects_view, params_view, Color, Curve, CurveV, IoV, ListV,
    NameMap, ParamV, Parameter, ParameterIO, ParameterList, ParameterListMap, ParameterObject,
    Quat, Vector2f, Vector3f, Vector4f,
};

verus! {

/// Why a tree is no archive.
#[derive(Clone, Copy, Debug, PartialEq, Eq, Structural)]
pub enum DataError {
    /// A child that must be there is not.
    MissingChild,
    /// A node is of another kind than its place asks for.
    WrongShape,
    /// A sequence has no tag, or one that names no type.
    UnknownTag,
    /// A scalar is null.
    NullScalar,
    /// A curve sequence does not hold 32, 64, 96 or 128 values.
    CurveCount,
    /// A text that must be a number is none, or one out of range.
    BadNumber,
}

impl DataError {
    /// The error in words.
    pub open spec fn text(self) -> Seq<char> {
        match self {
            DataError::MissingChild => "a required child is missing"@,
            DataError::WrongShape => "a node is of the wrong kind"@,
            DataError::UnknownTag => "a sequence has no known tag"@,
            DataError::NullScalar => "null values are not supported"@,
            DataError::CurveCount => "a curve has the wrong number of values"@,
            DataError::BadNumber => "a number cannot be read"@,
        }
    }

    /// The error in words.
    pub fn message(&self) -> (r: &'static str)
        ensures
            r@ == self.text(),
    {
        match self {
            DataError::MissingChild => "a required child is missing",
            DataError::WrongShape => "a node is of the wrong kind",
            DataError::UnknownTag => "a sequence has no known tag",
            DataError::NullScalar => "null values are not supported",
            DataError::CurveCount => "a curve has the wrong number of values",
            DataError::BadNumber => "a number cannot be read",
        }
    }
}

/// The kind of number that a child of a sequence is read as.
#[derive(Clone, Copy, Debug, PartialEq, Eq, Structural)]
pub enum NumKind {
    /// A floating-point value, kept by its bits.
    Float,
    /// A signed 32-bit integer.
    Int,
    /// An unsigned 32-bit integer.
    U32,
    /// A byte.
    Byte,
}

/// The number that a node is read as: the floating-point value that a scalar
/// carries, or what the text of a scalar reads as in the range of the kind.
pub open spec fn num_of(node: NodeV, kind: NumKind) -> Option<int> {
    if node.kind != NodeKind::Scalar {
        None
    } else {
        match kind {
            NumKind::Float => match node.number {
                Some(bits) => Some(bits as int),
                None => None,
            },
            NumKind::Int => read_num(node.text, true, i32::MIN as int, i32::MAX as int),
            NumKind::U32 => read_num(node.text, false, 0, u32::MAX as int),
            NumKind::Byte => read_num(node.text, false, 0, u8::MAX as int),
        }
    }
}

/// Whether each of the children in `from..to` reads as a number of the kind.
pub open spec fn all_nums(children: Seq<NodeV>, kind: NumKind, from: int, to: int) -> bool {
    forall|i: int| from <= i < to ==> (#[trigger] num_of(children[i], kind)) is Some
}

/// The numbers that the children in `from..to` read as.
pub open spec fn nums(children: Seq<NodeV>, kind: NumKind, from: int, to: int) -> Seq<int> {
    Seq::new((to - from) as nat, |i: int| num_of(children[from + i], kind).unwrap())
}

/// The numbers as unsigned 32-bit values.
pub open spec fn as_u32s(values: Seq<int>) -> Seq<u32> {
    Seq::new(values.len(), |i: int| values[i] as u32)
}

/// The numbers as signed 32-bit values.
pub open spec fn as_i32s(values: Seq<int>) -> Seq<i32> {
    Seq::new(values.len(), |i: int| values[i] as i32)
}

/// The numbers as bytes.
pub open spec fn as_bytes(values: Seq<int>) -> Seq<u8> {
    Seq::new(values.len(), |i: int| values[i] as u8)
}

/// The least and the greatest value of a kind of number.
pub open spec fn kind_range(kind: NumKind) -> (int, int) {
    match kind {
        NumKind::Float => (0, u32::MAX as int),
        NumKind::Int => (i32::MIN as int, i32::MAX as int),
        NumKind::U32 => (0, u32::MAX as int),
        NumKind::Byte => (0, u8::MAX as int),
    }
}

/// Reads a node as a number of the kind.
pub fn read_number(node: &Node, kind: NumKind) -> (r: Option<i64>)
    ensures
        r == match num_of(node@, kind) {
            Some(v) => Some(v as i64),
            None => None,
        },
        r matches Some(v) ==> kind_range(kind).0 <= v <= kind_range(kind).1,
{
    match node.kind {
        NodeKind::Scalar => {},
        _ => {
            return None;
        },
    }
    match kind {
        NumKind::Float => match node.number {
            Some(bits) => Some(bits as i64),
            None => None,
        },
        NumKind::Int => parse_num(node.text.as_str(), true, -0x8000_0000, 0x7FFF_FFFF),
        NumKind::U32 => parse_num(node.text.as_str(), false, 0, 0xFFFF_FFFF),
        NumKind::Byte => parse_num(node.text.as_str(), false, 0, 0xFF),
    }
}

/// The views of the values of a vector.
pub open spec fn ints_of(values: Seq<i64>) -> Seq<int> {
    Seq::new(values.len(), |i: int| values[i] as int)
}

/// Reads `count` children from `from` on as numbers of the kind: all of them,
/// or nothing where one of them is no such number.
fn read_run(node: &Node, kind: NumKind, from: usize, count: usize) -> (r: Option<Vec<i64>>)
    requires
        from + count <= node@.children.len(),
    ensures
        match r {
            Some(values) => all_nums(node@.children, kind, from as int, from + count) && ints_of(
                values@,
            ) == nums(node@.children, kind, from as int, from + count)
                && forall|i: int|
                0 <= i < values@.len() ==> kind_range(kind).0 <= #[trigger] values@[i]
                    <= kind_range(kind).1,
            None => !all_nums(node@.children, kind, from as int, from + count),
        },
{
    let mut values: Vec<i64> = Vec::new();
    let total = node.children.len();
    let mut i: usize = 0;
    while i < count
        invariant
            i <= count,
            from + count <= total,
            total == node.children@.len(),
            node@.children.len() == node.children@.len(),
            values@.len() == i,
            all_nums(node@.children, kind, from as int, from + i),
            forall|j: int|
                0 <= j < i ==> num_of(node@.children[from + j], kind) == Some(
                    #[trigger] values@[j] as int,
                ),
            forall|j: int|
                0 <= j < i ==> kind_range(kind).0 <= #[trigger] values@[j] <= kind_range(kind).1,
        decreases count - i,
    {
        proof {
            assert(node@.children[from + i] == node.children@[from + i].view());
        }
        match read_number(&node.children[from + i], kind) {
            Some(v) => {
                values.push(v);
            },
            None => {
                return None;
            },
        }
        i = i + 1;
    }
    assert(ints_of(values@) =~= nums(node@.children, kind, from as int, from + count));
    Some(values)
}

/// The values as unsigned 32-bit values.
fn to_u32s(values: &Vec<i64>) -> (r: Vec<u32>)
    requires
        forall|i: int| 0 <= i < values@.len() ==> 0 <= #[trigger] values@[i] <= u32::MAX,
    ensures
        r@ == as_u32s(ints_of(values@)),
{
    let mut out: Vec<u32> = Vec::new();
    let mut i: usize = 0;
    while i < values.len()
        invariant
            i <= values.len(),
            forall|j: int| 0 <= j < values@.len() ==> 0 <= #[trigger] values@[j] <= u32::MAX,
            out@.len() == i,
            forall|j: int| 0 <= j < i ==> #[trigger] out@[j] == values@[j] as u32,
        decreases values.len() - i,
    {
        out.push(values[i] as u32);
        i = i + 1;
    }
    assert(out@ =~= as_u32s(ints_of(values@)));
    out
}

/// The values as signed 32-bit values.
fn to_i32s(values: &Vec<i64>) -> (r: Vec<i32>)
    requires
        forall|i: int| 0 <= i < values@.len() ==> i32::MIN <= #[trigger] values@[i] <= i32::MAX,
    ensures
        r@ == as_i32s(ints_of(values@)),
{
    let mut out: Vec<i32> = Vec::new();
    let mut i: usize = 0;
    while i < values.len()
        invariant
            i <= values.len(),
            forall|j: int|
                0 <= j < values@.len() ==> i32::MIN <= #[trigger] values@[j] <= i32::MAX,
            out@.len() == i,
            forall|j: int| 0 <= j < i ==> #[trigger] out@[j] == values@[j] as i32,
        decreases values.len() - i,
    {
        out.push(values[i] as i32);
        i = i + 1;
    }
    assert(out@ =~= as_i32s(ints_of(values@)));
    out
}

/// The values as bytes.
fn to_bytes(values: &Vec<i64>) -> (r: Vec<u8>)
    requires
        forall|i: int| 0 <= i < values@.len() ==> 0 <= #[trigger] values@[i] <= u8::MAX,
    ensures
        r@ == as_bytes(ints_of(values@)),
{
    let mut out: Vec<u8> = Vec::new();
    let mut i: usize = 0;
    while i < values.len()
        invariant
            i <= values.len(),
            forall|j: int| 0 <= j < values@.len() ==> 0 <= #[trigger] values@[j] <= u8::MAX,
            out@.len() == i,
            forall|j: int| 0 <= j < i ==> #[trigger] out@[j] == values@[j] as u8,
        decreases values.len() - i,
    {
        out.push(values[i] as u8);
        i = i + 1;
    }
    assert(out@ =~= as_bytes(ints_of(values@)));
    out
}

/// The floating-point values of a record of `count` fields: the first
/// `count` children. A child that is no number is reported before a child
/// that is missing.
pub open spec fn read_fixed(children: Seq<NodeV>, count: int) -> Result<Seq<u32>, DataError> {
    let have = if children.len() < count {
        children.len() as int
    } else {
        count
    };
    if !all_nums(children, NumKind::Float, 0, have) {
        Err(DataError::BadNumber)
    } else if children.len() < count {
        Err(DataError::MissingChild)
    } else {
        Ok(as_u32s(nums(children, NumKind::Float, 0, count)))
    }
}

/// The view of a result that holds a vector.
pub open spec fn values_result<T>(r: Result<Vec<T>, DataError>) -> Result<Seq<T>, DataError> {
    match r {
        Ok(values) => Ok(values@),
        Err(e) => Err(e),
    }
}

/// Reads the floating-point values of a record of `count` fields.
pub fn read_floats(node: &Node, count: usize) -> (r: Result<Vec<u32>, DataError>)
    ensures
        values_result(r) == read_fixed(node@.children, count as int),
        r matches Ok(values) ==> values@.len() == count,
{
    let total = node.children.len();
    assert(node@.children.len() == total);
    let have = if total < count {
        total
    } else {
        count
    };
    match read_run(node, NumKind::Float, 0, have) {
        None => Err(DataError::BadNumber),
        Some(values) => {
            if total < count {
                Err(DataError::MissingChild)
            } else {
                Ok(to_u32s(&values))
            }
        },
    }
}

/// Whether curve `j` of a flat sequence can be read: two unsigned integers,
/// then thirty floating-point values.
pub open spec fn curve_ok(children: Seq<NodeV>, j: int) -> bool {
    all_nums(children, NumKind::U32, 32 * j, 32 * j + 2) && all_nums(
        children,
        NumKind::Float,
        32 * j + 2,
        32 * j + 32,
    )
}

/// Curve `j` of a flat sequence.
pub open spec fn curve_at(children: Seq<NodeV>, j: int) -> CurveV {
    CurveV {
        a: num_of(children[32 * j], NumKind::U32).unwrap() as u32,
        b: num_of(children[32 * j + 1], NumKind::U32).unwrap() as u32,
        floats: as_u32s(nums(children, NumKind::Float, 32 * j + 2, 32 * j + 32)),
    }
}

/// Whether every curve of a flat sequence can be read.
pub open spec fn all_curves_ok(children: Seq<NodeV>) -> bool {
    forall|j: int| 0 <= j < children.len() / 32 ==> #[trigger] curve_ok(children, j)
}

/// The curves of a flat sequence: one for every 32 values, of which there
/// must be 32, 64, 96 or 128.
pub open spec fn read_curve_values(children: Seq<NodeV>) -> Result<Seq<CurveV>, DataError> {
    let n = children.len();
    if n != 32 && n != 64 && n != 96 && n != 128 {
        Err(DataError::CurveCount)
    } else if !all_curves_ok(children) {
        Err(DataError::BadNumber)
    } else {
        Ok(Seq::new(n / 32, |j: int| curve_at(children, j)))
    }
}

/// The thirty floating-point values of a curve.
fn floats_array(f: &Vec<u32>) -> (r: [u32; 30])
    requires
        f@.len() == 30,
    ensures
        r@ == f@,
{
    let floats: [u32; 30] = [
        f[0],
        f[1],
        f[2],
        f[3],
        f[4],
        f[5],
        f[6],
        f[7],
        f[8],
        f[9],
        f[10],
        f[11],
        f[12],
        f[13],
        f[14],
        f[15],
        f[16],
        f[17],
        f[18],
        f[19],
        f[20],
        f[21],
        f[22],
        f[23],
        f[24],
        f[25],
        f[26],
        f[27],
        f[28],
        f[29],
    ];
    assert(floats@ =~= f@);
    floats
}

/// Reads curve `j` of a flat sequence.
fn read_curve(node: &Node, j: usize) -> (r: Option<Curve>)
    requires
        32 * j + 32 <= node@.children.len(),
    ensures
        match r {
            Some(curve) => curve_ok(node@.children, j as int) && curve@ == curve_at(
                node@.children,
                j as int,
            ),
            None => !curve_ok(node@.children, j as int),
        },
{
    let total = node.children.len();
    assert(node@.children.len() == total);
    let heads = match read_run(node, NumKind::U32, 32 * j, 2) {
        Some(values) => values,
        None => {
            return None;
        },
    };
    let tail = match read_run(node, NumKind::Float, 32 * j + 2, 30) {
        Some(values) => values,
        None => {
            return None;
        },
    };
    let f = to_u32s(&tail);
    assert(ints_of(heads@).len() == 2);
    assert(ints_of(heads@)[0] == heads@[0] && ints_of(heads@)[1] == heads@[1]);
    assert(ints_of(tail@).len() == 30);
    let floats = floats_array(&f);
    Some(Curve { a: heads[0] as u32, b: heads[1] as u32, floats })
}

/// The views of the curves in a result.
pub open spec fn curves_result(r: Result<Vec<Curve>, DataError>) -> Result<Seq<CurveV>, DataError> {
    match r {
        Ok(curves) => Ok(crate::types::curves_view(curves@)),
        Err(e) => Err(e),
    }
}

/// Reads the curves of a flat sequence.
pub fn read_curves(node: &Node) -> (r: Result<Vec<Curve>, DataError>)
    ensures
        curves_result(r) == read_curve_values(node@.children),
        r matches Ok(curves) ==> 1 <= curves@.len() <= 4,
{
    let n = node.children.len();
    assert(node@.children.len() == n);
    if n != 32 && n != 64 && n != 96 && n != 128 {
        return Err(DataError::CurveCount);
    }
    let count = n / 32;
    let mut curves: Vec<Curve> = Vec::new();
    let mut j: usize = 0;
    while j < count
        invariant
            j <= count,
            count == n / 32,
            n == 32 * count,
            n == 32 || n == 64 || n == 96 || n == 128,
            n == node@.children.len(),
            curves@.len() == j,
            forall|k: int| 0 <= k < j ==> curve_ok(node@.children, k),
            forall|k: int| 0 <= k < j ==> (#[trigger] curves@[k])@ == curve_at(node@.children, k),
        decreases count - j,
    {
        match read_curve(node, j) {
            Some(curve) => {
                curves.push(curve);
            },
            None => {
                assert(!curve_ok(node@.children, j as int));
                return Err(DataError::BadNumber);
            },
        }
        j = j + 1;
    }
    assert(crate::types::curves_view(curves@) =~= Seq::new(
        (n / 32) as nat,
        |j: int| curve_at(node@.children, j),
    ));
    Ok(curves)
}

/// Whether a text is a null: empty, `~`, or the word in one of its three
/// spellings.
pub open spec fn is_null(text: Seq<char>) -> bool {
    text.len() == 0 || text == "~"@ || text == "null"@ || text == "Null"@ || text == "NULL"@
}

/// The value of a scalar that no tag gives a type. A quoted scalar is a
/// string. An unquoted one is, in this order: an integer where its text is an
/// integer literal of 32 bits; a floating-point value where it carries one
/// and its text looks like a number; a boolean for `true` and `false`; an
/// error where it is a null; a string.
pub open spec fn decode_untagged(node: NodeV) -> Result<ParamV, DataError> {
    if node.quoted {
        Ok(ParamV::StringRef(node.text))
    } else if read_plain(node.text, i32::MIN as int, i32::MAX as int) is Some {
        Ok(ParamV::Int(read_plain(node.text, i32::MIN as int, i32::MAX as int).unwrap() as i32))
    } else if node.number is Some && looks_numeric(node.text) {
        Ok(ParamV::F32(node.number.unwrap()))
    } else if node.text == "true"@ {
        Ok(ParamV::Bool(true))
    } else if node.text == "false"@ {
        Ok(ParamV::Bool(false))
    } else if is_null(node.text) {
        Err(DataError::NullScalar)
    } else {
        Ok(ParamV::StringRef(node.text))
    }
}

/// The value of a scalar: a string of the length class that its tag names;
/// an unsigned integer under the tag `!u`; under any other tag, and without
/// one, what `decode_untagged` says.
pub open spec fn decode_scalar(node: NodeV) -> Result<ParamV, DataError> {
    if node.tag == "!str32"@ {
        Ok(ParamV::String32(node.text))
    } else if node.tag == "!str64"@ {
        Ok(ParamV::String64(node.text))
    } else if node.tag == "!str256"@ {
        Ok(ParamV::String256(node.text))
    } else if node.tag == "!u"@ {
        match read_num(node.text, false, 0, u32::MAX as int) {
            Some(v) => Ok(ParamV::U32(v as u32)),
            None => Err(DataError::BadNumber),
        }
    } else {
        decode_untagged(node)
    }
}

/// The value of a sequence, by its tag.
pub open spec fn decode_sequence(node: NodeV) -> Result<ParamV, DataError> {
    let children = node.children;
    let n = children.len() as int;
    if node.tag == "!vec2"@ {
        match read_fixed(children, 2) {
            Ok(f) => Ok(ParamV::Vec2(Vector2f { x: f[0], y: f[1] })),
            Err(e) => Err(e),
        }
    } else if node.tag == "!vec3"@ {
        match read_fixed(children, 3) {
            Ok(f) => Ok(ParamV::Vec3(Vector3f { x: f[0], y: f[1], z: f[2] })),
            Err(e) => Err(e),
        }
    } else if node.tag == "!vec4"@ {
        match read_fixed(children, 4) {
            Ok(f) => Ok(ParamV::Vec4(Vector4f { x: f[0], y: f[1], z: f[2], t: f[3] })),
            Err(e) => Err(e),
        }
    } else if node.tag == "!quat"@ {
        match read_fixed(children, 4) {
            Ok(f) => Ok(ParamV::Quat(Quat { a: f[0], b: f[1], c: f[2], d: f[3] })),
            Err(e) => Err(e),
        }
    } else if node.tag == "!color"@ {
        match read_fixed(children, 4) {
            Ok(f) => Ok(ParamV::Color(Color { r: f[0], g: f[1], b: f[2], a: f[3] })),
            Err(e) => Err(e),
        }
    } else if node.tag == "!curve"@ {
        match read_curve_values(children) {
            Ok(curves) => Ok(ParamV::Curves(curves)),
            Err(e) => Err(e),
        }
    } else if node.tag == "!buffer_int"@ {
        if all_nums(children, NumKind::Int, 0, n) {
            Ok(ParamV::BufferInt(as_i32s(nums(children, NumKind::Int, 0, n))))
        } else {
            Err(DataError::BadNumber)
        }
    } else if node.tag == "!buffer_f32"@ {
        if all_nums(children, NumKind::Float, 0, n) {
            Ok(ParamV::BufferF32(as_u32s(nums(children, NumKind::Float, 0, n))))
        } else {
            Err(DataError::BadNumber)
        }
    } else if node.tag == "!buffer_u32"@ {
        if all_nums(children, NumKind::U32, 0, n) {
            Ok(ParamV::BufferU32(as_u32s(nums(children, NumKind::U32, 0, n))))
        } else {
            Err(DataError::BadNumber)
        }
    } else if node.tag == "!buffer_binary"@ {
        if all_nums(children, NumKind::Byte, 0, n) {
            Ok(ParamV::BufferBinary(as_bytes(nums(children, NumKind::Byte, 0, n))))
        } else {
            Err(DataError::BadNumber)
        }
    } else {
        Err(DataError::UnknownTag)
    }
}

/// The value of a leaf: that of a scalar or of a sequence; a map is none.
pub open spec fn decode_param(node: NodeV) -> Result<ParamV, DataError> {
    match node.kind {
        NodeKind::Scalar => decode_scalar(node),
        NodeKind::Sequence => decode_sequence(node),
        NodeKind::Mapping => Err(DataError::WrongShape),
    }
}

/// The view of a result that holds a parameter.
pub open spec fn param_result(r: Result<Parameter, DataError>) -> Result<ParamV, DataError> {
    match r {
        Ok(param) => Ok(param@),
        Err(e) => Err(e),
    }
}

/// Whether a tag is one that gives a scalar its type.
pub fn recognize_tag(tag: &str) -> (r: bool)
    ensures
        r == (tag@ == "!str32"@ || tag@ == "!str64"@ || tag@ == "!str256"@ || tag@ == "!u"@),
{
    same_text(tag, "!str32") || same_text(tag, "!str64") || same_text(tag, "!str256") || same_text(
        tag,
        "!u",
    )
}

/// Whether a text is a null.
pub fn is_null_text(text: &str) -> (r: bool)
    ensures
        r == is_null(text@),
{
    text.unicode_len() == 0 || same_text(text, "~") || same_text(text, "null") || same_text(
        text,
        "Null",
    ) || same_text(text, "NULL")
}

/// Reads a scalar that no tag gives a type.
pub fn untagged_to_value(node: &Node) -> (r: Result<Parameter, DataError>)
    ensures
        param_result(r) == decode_untagged(node@),
{
    let text = node.text.as_str();
    if node.quoted {
        return Ok(Parameter::StringRef(node.text.clone()));
    }
    match parse_plain(text, -0x8000_0000, 0x7FFF_FFFF) {
        Some(v) => {
            return Ok(Parameter::Int(v as i32));
        },
        None => {},
    }
    match node.number {
        Some(bits) => {
            if looks_like_number(text) {
                return Ok(Parameter::F32(bits));
            }
        },
        None => {},
    }
    if same_text(text, "true") {
        Ok(Parameter::Bool(true))
    } else if same_text(text, "false") {
        Ok(Parameter::Bool(false))
    } else if is_null_text(text) {
        Err(DataError::NullScalar)
    } else {
        Ok(Parameter::StringRef(node.text.clone()))
    }
}

/// Reads a scalar.
pub fn scalar_to_value(node: &Node) -> (r: Result<Parameter, DataError>)
    ensures
        param_result(r) == decode_scalar(node@),
{
    let tag = node.tag.as_str();
    if !recognize_tag(tag) {
        untagged_to_value(node)
    } else if same_text(tag, "!str32") {
        Ok(Parameter::String32(node.text.clone()))
    } else if same_text(tag, "!str64") {
        Ok(Parameter::String64(node.text.clone()))
    } else if same_text(tag, "!str256") {
        Ok(Parameter::String256(node.text.clone()))
    } else if same_text(tag, "!u") {
        match parse_num(node.text.as_str(), false, 0, 0xFFFF_FFFF) {
            Some(v) => Ok(Parameter::U32(v as u32)),
            None => Err(DataError::BadNumber),
        }
    } else {
        untagged_to_value(node)
    }
}

/// Reads all children of a sequence as numbers of one kind.
pub fn read_buf(node: &Node, kind: NumKind) -> (r: Result<Vec<i64>, DataError>)
    ensures
        match r {
            Ok(values) => all_nums(node@.children, kind, 0, node@.children.len() as int)
                && ints_of(values@) == nums(node@.children, kind, 0, node@.children.len() as int)
                && forall|i: int|
                0 <= i < values@.len() ==> kind_range(kind).0 <= #[trigger] values@[i]
                    <= kind_range(kind).1,
            Err(e) => e == DataError::BadNumber && !all_nums(
                node@.children,
                kind,
                0,
                node@.children.len() as int,
            ),
        },
{
    let total = node.children.len();
    assert(node@.children.len() == total);
    match read_run(node, kind, 0, total) {
        Some(values) => Ok(values),
        None => Err(DataError::BadNumber),
    }
}

/// Reads a sequence.
pub fn sequence_to_value(node: &Node) -> (r: Result<Parameter, DataError>)
    ensures
        param_result(r) == decode_sequence(node@),
{
    let tag = node.tag.as_str();
    if same_text(tag, "!vec2") {
        match read_floats(node, 2) {
            Ok(f) => Ok(Parameter::Vec2(Vector2f { x: f[0], y: f[1] })),
            Err(e) => Err(e),
        }
    } else if same_text(tag, "!vec3") {
        match read_floats(node, 3) {
            Ok(f) => Ok(Parameter::Vec3(Vector3f { x: f[0], y: f[1], z: f[2] })),
            Err(e) => Err(e),
        }
    } else if same_text(tag, "!vec4") {
        match read_floats(node, 4) {
            Ok(f) => Ok(Parameter::Vec4(Vector4f { x: f[0], y: f[1], z: f[2], t: f[3] })),
            Err(e) => Err(e),
        }
    } else if same_text(tag, "!quat") {
        match read_floats(node, 4) {
            Ok(f) => Ok(Parameter::Quat(Quat { a: f[0], b: f[1], c: f[2], d: f[3] })),
            Err(e) => Err(e),
        }
    } else if same_text(tag, "!color") {
        match read_floats(node, 4) {
            Ok(f) => Ok(Parameter::Color(Color { r: f[0], g: f[1], b: f[2], a: f[3] })),
            Err(e) => Err(e),
        }
    } else if same_text(tag, "!curve") {
        match read_curves(node) {
            Ok(curves) => {
                let count = curves.len();
                let param = if count == 1 {
                    let array = [curves[0]];
                    assert(array@ =~= curves@);
                    Parameter::Curve1(array)
                } else if count == 2 {
                    let array = [curves[0], curves[1]];
                    assert(array@ =~= curves@);
                    Parameter::Curve2(array)
                } else if count == 3 {
                    let array = [curves[0], curves[1], curves[2]];
                    assert(array@ =~= curves@);
                    Parameter::Curve3(array)
                } else {
                    let array = [curves[0], curves[1], curves[2], curves[3]];
                    assert(array@ =~= curves@);
                    Parameter::Curve4(array)
                };
                Ok(param)
            },
            Err(e) => Err(e),
        }
    } else if same_text(tag, "!buffer_int") {
        match read_buf(node, NumKind::Int) {
            Ok(values) => Ok(Parameter::BufferInt(to_i32s(&values))),
            Err(e) => Err(e),
        }
    } else if same_text(tag, "!buffer_f32") {
        match read_buf(node, NumKind::Float) {
            Ok(values) => Ok(Parameter::BufferF32(to_u32s(&values))),
            Err(e) => Err(e),
        }
    } else if same_text(tag, "!buffer_u32") {
        match read_buf(node, NumKind::U32) {
            Ok(values) => Ok(Parameter::BufferU32(to_u32s(&values))),
            Err(e) => Err(e),
        }
    } else if same_text(tag, "!buffer_binary") {
        match read_buf(node, NumKind::Byte) {
            Ok(values) => Ok(Parameter::BufferBinary(to_bytes(&values))),
            Err(e) => Err(e),
        }
    } else {
        Err(DataError::UnknownTag)
    }
}

/// Reads a leaf.
pub fn parse_parameter(node: &Node) -> (r: Result<Parameter, DataError>)
    ensures
        param_result(r) == decode_param(node@),
{
    match node.kind {
        NodeKind::Scalar => scalar_to_value(node),
        NodeKind::Sequence => sequence_to_value(node),
        NodeKind::Mapping => Err(DataError::WrongShape),
    }
}

/// The low 32 bits of a value.
pub open spec fn low32(v: u64) -> u32 {
    (v & 0xFFFF_FFFF) as u32
}

/// The hash that a key stands for, given what the key reads as: where the key
/// is not quoted and reads as an integer, the low 32 bits of that integer;
/// otherwise the hash of the key as a name.
pub open spec fn key_hash_of(key: Seq<char>, quoted: bool, parsed: Option<u64>) -> u32 {
    if !quoted && parsed is Some {
        low32(parsed.unwrap())
    } else {
        name_hash(key)
    }
}

/// The hash that a key stands for.
pub open spec fn key_hash(key: Seq<char>, quoted: bool) -> u32 {
    key_hash_of(key, quoted, read_u64(key))
}

/// The key of an entry, from the text of the key and what it reads as.
pub fn key_of(key: &str, quoted: bool, parsed: Option<u64>) -> (r: Name)
    ensures
        r.hash == key_hash_of(key@, quoted, parsed),
{
    match parsed {
        Some(v) => {
            if !quoted {
                return Name::new((v & 0xFFFF_FFFF) as u32);
            }
        },
        None => {},
    }
    Name::new(hash_name(key))
}

/// The key of the entry that a node holds.
pub fn read_key(node: &Node) -> (r: Name)
    ensures
        r.hash == key_hash(node@.key, node@.key_quoted),
{
    let parsed = parse_u64(node.key.as_str());
    key_of(node.key.as_str(), node.key_quoted, parsed)
}

/// The parameters that the first `count` children hold, each under the hash
/// of its key: a key that comes again gives its first entry a new value. The
/// first child that is no parameter makes the whole an error.
pub open spec fn decode_params(children: Seq<NodeV>, count: nat) -> Result<
    Seq<(u32, ParamV)>,
    DataError,
>
    decreases count,
{
    if count == 0 {
        Ok(Seq::empty())
    } else {
        match decode_params(children, (count - 1) as nat) {
            Err(e) => Err(e),
            Ok(entries) => {
                let child = children[count - 1];
                match decode_param(child) {
                    Err(e) => Err(e),
                    Ok(value) => Ok(inserted(entries, key_hash(child.key, child.key_quoted), value)),
                }
            },
        }
    }
}

/// The object that a node holds: the node must be a map.
pub open spec fn decode_object(node: NodeV) -> Result<Seq<(u32, ParamV)>, DataError> {
    if node.kind != NodeKind::Mapping {
        Err(DataError::WrongShape)
    } else {
        decode_params(node.children, node.children.len())
    }
}

/// The objects that the first `count` children hold.
pub open spec fn decode_objects(children: Seq<NodeV>, count: nat) -> Result<
    Seq<(u32, Seq<(u32, ParamV)>)>,
    DataError,
>
    decreases count,
{
    if count == 0 {
        Ok(Seq::empty())
    } else {
        match decode_objects(children, (count - 1) as nat) {
            Err(e) => Err(e),
            Ok(entries) => {
                let child = children[count - 1];
                match decode_object(child) {
                    Err(e) => Err(e),
                    Ok(value) => Ok(inserted(entries, key_hash(child.key, child.key_quoted), value)),
                }
            },
        }
    }
}

/// The list that a node holds. The node must be a map with a child `lists`
/// and a child `objects`, both maps; the objects are read first.
pub open spec fn decode_list(node: NodeV) -> Result<ListV, DataError>
    decreases node, 0nat,
{
    if node.kind != NodeKind::Mapping {
        Err(DataError::WrongShape)
    } else {
        match child_index(node.children, "lists"@, 0) {
            None => Err(DataError::MissingChild),
            Some(l) => match child_index(node.children, "objects"@, 0) {
                None => Err(DataError::MissingChild),
                Some(o) => {
                    let objects = node.children[o];
                    if objects.kind != NodeKind::Mapping {
                        Err(DataError::WrongShape)
                    } else {
                        match decode_objects(objects.children, objects.children.len()) {
                            Err(e) => Err(e),
                            Ok(objects) => {
                                proof {
                                    lemma_child_index(node.children, "lists"@, 0);
                                }
                                let lists = node.children[l];
                                if lists.kind != NodeKind::Mapping {
                                    Err(DataError::WrongShape)
                                } else {
                                    match decode_lists(lists, lists.children.len()) {
                                        Err(e) => Err(e),
                                        Ok(lists) => Ok(ListV { objects, lists }),
                                    }
                                }
                            },
                        }
                    }
                },
            },
        }
    }
}

/// The lists that the first `count` children of a node hold.
pub open spec fn decode_lists(node: NodeV, count: nat) -> Result<Seq<(u32, ListV)>, DataError>
    decreases node, count,
{
    if count == 0 || count > node.children.len() {
        Ok(Seq::empty())
    } else {
        match decode_lists(node, (count - 1) as nat) {
            Err(e) => Err(e),
            Ok(entries) => {
                let child = node.children[count - 1];
                match decode_list(child) {
                    Err(e) => Err(e),
                    Ok(value) => Ok(inserted(entries, key_hash(child.key, child.key_quoted), value)),
                }
            },
        }
    }
}

/// The archive that a node holds. The node must be a map with a child
/// `version` that reads as an unsigned 32-bit number, a scalar child `type`,
/// and a child `param_root` that holds a list. They are read in this order.
pub open spec fn decode_io(node: NodeV) -> Result<IoV, DataError> {
    if node.kind != NodeKind::Mapping {
        Err(DataError::WrongShape)
    } else {
        match child_index(node.children, "version"@, 0) {
            None => Err(DataError::MissingChild),
            Some(v) => match num_of(node.children[v], NumKind::U32) {
                None => Err(DataError::BadNumber),
                Some(version) => match child_index(node.children, "type"@, 0) {
                    None => Err(DataError::MissingChild),
                    Some(t) => if node.children[t].kind != NodeKind::Scalar {
                        Err(DataError::WrongShape)
                    } else {
                        match child_index(node.children, "param_root"@, 0) {
                            None => Err(DataError::MissingChild),
                            Some(p) => match decode_list(node.children[p]) {
                                Err(e) => Err(e),
                                Ok(root) => Ok(
                                    IoV {
                                        version: version as u32,
                                        data_type: node.children[t].text,
                                        param_root: root,
                                    },
                                ),
                            },
                        }
                    },
                },
            },
        }
    }
}

/// The view of a result that holds an object.
pub open spec fn object_result(r: Result<ParameterObject, DataError>) -> Result<
    Seq<(u32, ParamV)>,
    DataError,
> {
    match r {
        Ok(object) => Ok(object@),
        Err(e) => Err(e),
    }
}

/// The view of a result that holds a list.
pub open spec fn list_result(r: Result<ParameterList, DataError>) -> Result<ListV, DataError> {
    match r {
        Ok(list) => Ok(list.view()),
        Err(e) => Err(e),
    }
}

/// The view of a result that holds an archive.
pub open spec fn io_result(r: Result<ParameterIO, DataError>) -> Result<IoV, DataError> {
    match r {
        Ok(io) => Ok(io@),
        Err(e) => Err(e),
    }
}

/// Reads an object.
pub fn read_parameter_object(node: &Node) -> (r: Result<ParameterObject, DataError>)
    ensures
        object_result(r) == decode_object(node@),
        r matches Ok(object) ==> object.wf(),
{
    match node.kind {
        NodeKind::Mapping => {},
        _ => {
            return Err(DataError::WrongShape);
        },
    }
    let mut params: NameMap<Parameter> = NameMap::new();
    let total = node.children.len();
    assert(node@.children.len() == total);
    assert(params_view(params@) =~= Seq::empty());
    let mut i: usize = 0;
    while i < total
        invariant
            i <= total,
            total == node.children@.len(),
            total == node@.children.len(),
            params.wf(),
            node@.kind == NodeKind::Mapping,
            decode_params(node@.children, i as nat) == Ok::<Seq<(u32, ParamV)>, DataError>(
                params_view(params@),
            ),
        decreases total - i,
    {
        let child = &node.children[i];
        proof {
            assert(node@.children[i as int] == child.view());
        }
        let value = match parse_parameter(child) {
            Ok(value) => value,
            Err(e) => {
                proof {
                    lemma_params_error(node@.children, (i + 1) as nat, total as nat);
                }
                return Err(e);
            },
        };
        let key = read_key(child);
        proof {
            lemma_params_inserted(params@, key, value);
        }
        params.insert(key, value);
        i = i + 1;
    }
    Ok(ParameterObject(params))
}

/// An error among the first children is the error of them all.
pub proof fn lemma_params_error(children: Seq<NodeV>, count: nat, total: nat)
    requires
        count <= total,
        decode_params(children, count) is Err,
    ensures
        decode_params(children, total) == decode_params(children, count),
    decreases total - count,
{
    if count < total {
        lemma_params_error(children, count, (total - 1) as nat);
    }
}

/// An error among the first objects is the error of them all.
pub proof fn lemma_objects_error(children: Seq<NodeV>, count: nat, total: nat)
    requires
        count <= total,
        decode_objects(children, count) is Err,
    ensures
        decode_objects(children, total) == decode_objects(children, count),
    decreases total - count,
{
    if count < total {
        lemma_objects_error(children, count, (total - 1) as nat);
    }
}

/// An error among the first lists is the error of them all.
pub proof fn lemma_lists_error(node: NodeV, count: nat, total: nat)
    requires
        0 < count <= total <= node.children.len(),
        decode_lists(node, count) is Err,
    ensures
        decode_lists(node, total) == decode_lists(node, count),
    decreases total - count,
{
    if count < total {
        lemma_lists_error(node, count, (total - 1) as nat);
    }
}

/// Reads the objects of a list from the node that holds them.
pub fn read_objects(node: &Node) -> (r: Result<NameMap<ParameterObject>, DataError>)
    ensures
        match r {
            Ok(objects) => decode_objects(node@.children, node@.children.len()) == Ok::<
                Seq<(u32, Seq<(u32, ParamV)>)>,
                DataError,
            >(objects_view(objects@)) && objects.wf() && forall|i: int|
                0 <= i < objects@.len() ==> (#[trigger] objects@[i]).1.wf(),
            Err(e) => decode_objects(node@.children, node@.children.len()) == Err::<
                Seq<(u32, Seq<(u32, ParamV)>)>,
                DataError,
            >(e),
        },
{
    let mut objects: NameMap<ParameterObject> = NameMap::new();
    let total = node.children.len();
    assert(node@.children.len() == total);
    assert(objects_view(objects@) =~= Seq::empty());
    let mut i: usize = 0;
    while i < total
        invariant
            i <= total,
            total == node.children@.len(),
            total == node@.children.len(),
            objects.wf(),
            forall|j: int| 0 <= j < objects@.len() ==> (#[trigger] objects@[j]).1.wf(),
            decode_objects(node@.children, i as nat) == Ok::<
                Seq<(u32, Seq<(u32, ParamV)>)>,
                DataError,
            >(objects_view(objects@)),
        decreases total - i,
    {
        let child = &node.children[i];
        proof {
            assert(node@.children[i as int] == child.view());
        }
        let value = match read_parameter_object(child) {
            Ok(value) => value,
            Err(e) => {
                proof {
                    lemma_objects_error(node@.children, (i + 1) as nat, total as nat);
                }
                return Err(e);
            },
        };
        let key = read_key(child);
        proof {
            lemma_objects_inserted(objects@, key, value);
            lemma_inserted_all(objects@, key, value, |o: ParameterObject| o.wf());
        }
        objects.insert(key, value);
        i = i + 1;
    }
    Ok(objects)
}

/// Reads the lists of a list from the node that holds them.
pub fn read_lists(node: &Node) -> (r: Result<ParameterListMap, DataError>)
    ensures
        match r {
            Ok(lists) => decode_lists(node@, node@.children.len()) == Ok::<
                Seq<(u32, ListV)>,
                DataError,
            >(lists_view(lists@)) && lists.wf() && forall|i: int|
                0 <= i < lists@.len() ==> (#[trigger] lists@[i]).1.wf(),
            Err(e) => decode_lists(node@, node@.children.len()) == Err::<
                Seq<(u32, ListV)>,
                DataError,
            >(e),
        },
    decreases node, 1nat,
{
    let mut lists = ParameterListMap::new();
    let total = node.children.len();
    assert(node@.children.len() == total);
    assert(lists_view(lists@) =~= Seq::empty());
    let mut i: usize = 0;
    while i < total
        invariant
            i <= total,
            total == node.children@.len(),
            total == node@.children.len(),
            lists.wf(),
            forall|j: int| 0 <= j < lists@.len() ==> (#[trigger] lists@[j]).1.wf(),
            decode_lists(node@, i as nat) == Ok::<Seq<(u32, ListV)>, DataError>(
                lists_view(lists@),
            ),
        decreases total - i,
    {
        let child = &node.children[i];
        proof {
            assert(node@.children[i as int] == child.view());
        }
        let value = match read_parameter_list(child) {
            Ok(value) => value,
            Err(e) => {
                proof {
                    lemma_lists_error(node@, (i + 1) as nat, total as nat);
                }
                return Err(e);
            },
        };
        let key = read_key(child);
        proof {
            lemma_lists_inserted(lists@, key, value);
            lemma_inserted_all(lists@, key, value, |l: ParameterList| l.wf());
        }
        lists.insert(key, value);
        i = i + 1;
    }
    Ok(lists)
}

/// Reads a list.
pub fn read_parameter_list(node: &Node) -> (r: Result<ParameterList, DataError>)
    ensures
        list_result(r) == decode_list(node@),
        r matches Ok(list) ==> list.wf(),
    decreases node, 0nat,
{
    match node.kind {
        NodeKind::Mapping => {},
        _ => {
            return Err(DataError::WrongShape);
        },
    }
    let l = match node.position("lists") {
        Some(l) => l,
        None => {
            return Err(DataError::MissingChild);
        },
    };
    let o = match node.position("objects") {
        Some(o) => o,
        None => {
            return Err(DataError::MissingChild);
        },
    };
    let objects_node = &node.children[o];
    let lists_node = &node.children[l];
    proof {
        assert(node@.children[o as int] == objects_node.view());
        assert(node@.children[l as int] == lists_node.view());
    }
    match objects_node.kind {
        NodeKind::Mapping => {},
        _ => {
            return Err(DataError::WrongShape);
        },
    }
    let objects = match read_objects(objects_node) {
        Ok(objects) => objects,
        Err(e) => {
            return Err(e);
        },
    };
    match lists_node.kind {
        NodeKind::Mapping => {},
        _ => {
            return Err(DataError::WrongShape);
        },
    }
    let lists = match read_lists(lists_node) {
        Ok(lists) => lists,
        Err(e) => {
            return Err(e);
        },
    };
    let list = ParameterList { objects, lists };
    proof {
        lemma_list_view(list);
    }
    Ok(list)
}

/// Reads an archive.
pub fn read_parameter_io(node: &Node) -> (r: Result<ParameterIO, DataError>)
    ensures
        io_result(r) == decode_io(node@),
        r matches Ok(io) ==> io.wf(),
{
    match node.kind {
        NodeKind::Mapping => {},
        _ => {
            return Err(DataError::WrongShape);
        },
    }
    let v = match node.position("version") {
        Some(v) => v,
        None => {
            return Err(DataError::MissingChild);
        },
    };
    proof {
        assert(node@.children[v as int] == node.children@[v as int].view());
    }
    let version = match read_number(&node.children[v], NumKind::U32) {
        Some(version) => version as u32,
        None => {
            return Err(DataError::BadNumber);
        },
    };
    let t = match node.position("type") {
        Some(t) => t,
        None => {
            return Err(DataError::MissingChild);
        },
    };
    proof {
        assert(node@.children[t as int] == node.children@[t as int].view());
    }
    match node.children[t].kind {
        NodeKind::Scalar => {},
        _ => {
            return Err(DataError::WrongShape);
        },
    }
    let data_type = node.children[t].text.clone();
    let p = match node.position("param_root") {
        Some(p) => p,
        None => {
            return Err(DataError::MissingChild);
        },
    };
    proof {
        assert(node@.children[p as int] == node.children@[p as int].view());
    }
    match read_parameter_list(&node.children[p]) {
        Ok(param_root) => Ok(ParameterIO { version, data_type, param_root }),
        Err(e) => Err(e),
    }
}

} // verus!
