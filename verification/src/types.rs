//! The typed model of a parameter archive.
//!
//! Floating-point values are held by their IEEE 754 single-precision bit
//! patterns: two values are the same when their bits are.

use vstd::prelude::*;
use crate::hash::Name;

verus! {

/// Two floating-point components.
#[derive(Clone, Copy, Debug, PartialEq, Eq, Structural)]
pub struct Vector2f {
    pub x: u32,
    pub y: u32,
}

/// Three floating-point components.
#[derive(Clone, Copy, Debug, PartialEq, Eq, Structural)]
pub struct Vector3f {
    pub x: u32,
    pub y: u32,
    pub z: u32,
}

/// Four floating-point components.
#[derive(Clone, Copy, Debug, PartialEq, Eq, Structural)]
pub struct Vector4f {
    pub x: u32,
    pub y: u32,
    pub z: u32,
    pub t: u32,
}

/// A quaternion.
#[derive(Clone, Copy, Debug, PartialEq, Eq, Structural)]
pub struct Quat {
    pub a: u32,
    pub b: u32,
    pub c: u32,
    pub d: u32,
}

/// A colour, in the order red, green, blue, alpha.
#[derive(Clone, Copy, Debug, PartialEq, Eq, Structural)]
pub struct Color {
    pub r: u32,
    pub g: u32,
    pub b: u32,
    pub a: u32,
}

/// One curve: two integers, then thirty floating-point values.
#[derive(Clone, Copy, Debug, PartialEq, Eq)]
pub struct Curve {
    pub a: u32,
    pub b: u32,
    pub floats: [u32; 30],
}

/// A curve as a mathematical value.
pub struct CurveV {
    pub a: u32,
    pub b: u32,
    pub floats: Seq<u32>,
}

impl View for Curve {
    type V = CurveV;

    open spec fn view(&self) -> CurveV {
        CurveV { a: self.a, b: self.b, floats: self.floats@ }
    }
}

/// The views of a run of curves.
pub open spec fn curves_view(curves: Seq<Curve>) -> Seq<CurveV> {
    Seq::new(curves.len(), |i: int| curves[i]@)
}

/// A leaf value of an archive.
#[derive(Clone, Debug, PartialEq, Eq)]
pub enum Parameter {
    Bool(bool),
    F32(u32),
    Int(i32),
    Vec2(Vector2f),
    Vec3(Vector3f),
    Vec4(Vector4f),
    Color(Color),
    String32(String),
    String64(String),
    Curve1([Curve; 1]),
    Curve2([Curve; 2]),
    Curve3([Curve; 3]),
    Curve4([Curve; 4]),
    BufferInt(Vec<i32>),
    BufferF32(Vec<u32>),
    String256(String),
    Quat(Quat),
    U32(u32),
    BufferU32(Vec<u32>),
    BufferBinary(Vec<u8>),
    StringRef(String),
}

/// A leaf value as a mathematical value. The four curve variants are one
/// here: the length of the sequence tells them apart.
pub enum ParamV {
    Bool(bool),
    F32(u32),
    Int(i32),
    Vec2(Vector2f),
    Vec3(Vector3f),
    Vec4(Vector4f),
    Color(Color),
    String32(Seq<char>),
    String64(Seq<char>),
    Curves(Seq<CurveV>),
    BufferInt(Seq<i32>),
    BufferF32(Seq<u32>),
    String256(Seq<char>),
    Quat(Quat),
    U32(u32),
    BufferU32(Seq<u32>),
    BufferBinary(Seq<u8>),
    StringRef(Seq<char>),
}

impl View for Parameter {
    type V = ParamV;

    open spec fn view(&self) -> ParamV {
        match *self {
            Parameter::Bool(b) => ParamV::Bool(b),
            Parameter::F32(f) => ParamV::F32(f),
            Parameter::Int(i) => ParamV::Int(i),
            Parameter::Vec2(v) => ParamV::Vec2(v),
            Parameter::Vec3(v) => ParamV::Vec3(v),
            Parameter::Vec4(v) => ParamV::Vec4(v),
            Parameter::Color(c) => ParamV::Color(c),
            Parameter::String32(s) => ParamV::String32(s@),
            Parameter::String64(s) => ParamV::String64(s@),
            Parameter::Curve1(c) => ParamV::Curves(curves_view(c@)),
            Parameter::Curve2(c) => ParamV::Curves(curves_view(c@)),
            Parameter::Curve3(c) => ParamV::Curves(curves_view(c@)),
            Parameter::Curve4(c) => ParamV::Curves(curves_view(c@)),
            Parameter::BufferInt(b) => ParamV::BufferInt(b@),
            Parameter::BufferF32(b) => ParamV::BufferF32(b@),
            Parameter::String256(s) => ParamV::String256(s@),
            Parameter::Quat(q) => ParamV::Quat(q),
            Parameter::U32(u) => ParamV::U32(u),
            Parameter::BufferU32(b) => ParamV::BufferU32(b@),
            Parameter::BufferBinary(b) => ParamV::BufferBinary(b@),
            Parameter::StringRef(s) => ParamV::StringRef(s@),
        }
    }
}

/// The first position of `key` among the entries, if it is there.
pub open spec fn position<K, V>(entries: Seq<(K, V)>, key: K) -> Option<int>
    decreases entries.len(),
{
    if entries.len() == 0 {
        None
    } else {
        match position(entries.drop_last(), key) {
            Some(i) => Some(i),
            None => if entries.last().0 == key {
                Some(entries.len() - 1)
            } else {
                None
            },
        }
    }
}

/// Whether no key occurs twice.
pub open spec fn distinct_keys<K, V>(entries: Seq<(K, V)>) -> bool {
    forall|i: int, j: int|
        0 <= i < j < entries.len() ==> (#[trigger] entries[i]).0 != (#[trigger] entries[j]).0
}

/// The entries after `key` is given `value`: in its old place where the key
/// is there already, at the end otherwise.
pub open spec fn inserted<K, V>(entries: Seq<(K, V)>, key: K, value: V) -> Seq<(K, V)> {
    match position(entries, key) {
        Some(i) => entries.update(i, (key, value)),
        None => entries.push((key, value)),
    }
}

/// What `position` finds: the first entry with the key, or that none has it.
pub proof fn lemma_position<K, V>(entries: Seq<(K, V)>, key: K)
    ensures
        match position(entries, key) {
            Some(i) => 0 <= i < entries.len() && entries[i].0 == key && forall|j: int|
                0 <= j < i ==> (#[trigger] entries[j]).0 != key,
            None => forall|j: int| 0 <= j < entries.len() ==> (#[trigger] entries[j]).0 != key,
        },
    decreases entries.len(),
{
    if entries.len() > 0 {
        lemma_position(entries.drop_last(), key);
        assert(forall|j: int|
            0 <= j < entries.len() - 1 ==> entries.drop_last()[j] == #[trigger] entries[j]);
    }
}

/// `position` is the first place of the key.
pub proof fn lemma_position_found<K, V>(entries: Seq<(K, V)>, key: K, i: int)
    requires
        0 <= i < entries.len(),
        entries[i].0 == key,
        forall|j: int| 0 <= j < i ==> (#[trigger] entries[j]).0 != key,
    ensures
        position(entries, key) == Some(i),
{
    lemma_position(entries, key);
}

/// `position` finds nothing where no entry has the key.
pub proof fn lemma_position_absent<K, V>(entries: Seq<(K, V)>, key: K)
    requires
        forall|j: int| 0 <= j < entries.len() ==> (#[trigger] entries[j]).0 != key,
    ensures
        position(entries, key) is None,
{
    lemma_position(entries, key);
}

/// Giving a key a value keeps the keys distinct.
pub proof fn lemma_inserted_distinct<K, V>(entries: Seq<(K, V)>, key: K, value: V)
    requires
        distinct_keys(entries),
    ensures
        distinct_keys(inserted(entries, key, value)),
{
    lemma_position(entries, key);
}

/// An ordered map from keys to values: the order is that in which the keys
/// first came, and no key occurs twice.
#[derive(Clone, Debug, PartialEq, Eq)]
pub struct NameMap<V> {
    items: Vec<(Name, V)>,
}

impl<V> View for NameMap<V> {
    type V = Seq<(Name, V)>;

    closed spec fn view(&self) -> Seq<(Name, V)> {
        self.items@
    }
}

impl<V> NameMap<V> {
    /// Whether the map is as every constructor leaves it: no key twice.
    pub open spec fn wf(&self) -> bool {
        distinct_keys(self@)
    }

    /// The empty map.
    pub fn new() -> (r: Self)
        ensures
            r@ == Seq::<(Name, V)>::empty(),
            r.wf(),
    {
        NameMap { items: Vec::new() }
    }

    /// The number of entries.
    pub fn len(&self) -> (r: usize)
        ensures
            r == self@.len(),
    {
        self.items.len()
    }

    /// The key of the entry at `index`.
    pub fn key_at(&self, index: usize) -> (r: Name)
        requires
            index < self@.len(),
        ensures
            r == self@[index as int].0,
    {
        self.items[index].0
    }

    /// The value of the entry at `index`.
    pub fn value_at(&self, index: usize) -> (r: &V)
        requires
            index < self@.len(),
        ensures
            *r == self@[index as int].1,
    {
        &self.items[index].1
    }

    /// Where the entry with this key stands.
    pub fn index_of(&self, key: Name) -> (r: Option<usize>)
        ensures
            match r {
                Some(i) => position(self@, key) == Some(i as int),
                None => position(self@, key) is None,
            },
    {
        let mut i: usize = 0;
        while i < self.items.len()
            invariant
                i <= self.items.len(),
                forall|j: int| 0 <= j < i ==> (#[trigger] self.items@[j]).0 != key,
            decreases self.items.len() - i,
        {
            if self.items[i].0.hash == key.hash {
                proof {
                    lemma_position_found(self.items@, key, i as int);
                }
                return Some(i);
            }
            i = i + 1;
        }
        proof {
            lemma_position_absent(self.items@, key);
        }
        None
    }

    /// The value under `key`, if the map has one.
    pub fn get(&self, key: Name) -> (r: Option<&V>)
        ensures
            r == match position(self@, key) {
                Some(i) => Some(&self@[i].1),
                None => None,
            },
    {
        match self.index_of(key) {
            Some(i) => {
                proof {
                    lemma_position(self@, key);
                }
                Some(&self.items[i].1)
            },
            None => None,
        }
    }

    /// Gives `key` the value: in place where the map has the key, as a new
    /// last entry otherwise.
    pub fn insert(&mut self, key: Name, value: V)
        ensures
            final(self)@ == inserted(old(self)@, key, value),
            old(self).wf() ==> final(self).wf(),
    {
        proof {
            lemma_position(self@, key);
            if self.wf() {
                lemma_inserted_distinct(self@, key, value);
            }
        }
        match self.index_of(key) {
            Some(i) => {
                self.items.set(i, (key, value));
            },
            None => {
                self.items.push((key, value));
            },
        }
    }
}

/// An object: parameters by key.
#[derive(Clone, Debug, PartialEq, Eq)]
pub struct ParameterObject(pub NameMap<Parameter>);

/// A list: objects by key, and further lists by key.
#[derive(Debug, PartialEq, Eq)]
pub struct ParameterList {
    pub objects: NameMap<ParameterObject>,
    pub lists: ParameterListMap,
}

/// An ordered map from keys to lists, with the order and the rule of
/// `NameMap`.
#[derive(Debug, PartialEq, Eq)]
pub struct ParameterListMap {
    items: Vec<(Name, ParameterList)>,
}

impl View for ParameterListMap {
    type V = Seq<(Name, ParameterList)>;

    closed spec fn view(&self) -> Seq<(Name, ParameterList)> {
        self.items@
    }
}

impl ParameterListMap {
    /// Whether the map is as every constructor leaves it: no key twice.
    pub open spec fn wf(&self) -> bool {
        distinct_keys(self@)
    }

    /// The empty map.
    pub fn new() -> (r: Self)
        ensures
            r@ == Seq::<(Name, ParameterList)>::empty(),
            r.wf(),
    {
        ParameterListMap { items: Vec::new() }
    }

    /// The number of entries.
    pub fn len(&self) -> (r: usize)
        ensures
            r == self@.len(),
    {
        self.items.len()
    }

    /// The key of the entry at `index`.
    pub fn key_at(&self, index: usize) -> (r: Name)
        requires
            index < self@.len(),
        ensures
            r == self@[index as int].0,
    {
        self.items[index].0
    }

    /// The value of the entry at `index`.
    pub fn value_at(&self, index: usize) -> (r: &ParameterList)
        requires
            index < self@.len(),
        ensures
            *r == self@[index as int].1,
    {
        &self.items[index].1
    }

    /// Where the entry with this key stands.
    pub fn index_of(&self, key: Name) -> (r: Option<usize>)
        ensures
            match r {
                Some(i) => position(self@, key) == Some(i as int),
                None => position(self@, key) is None,
            },
    {
        let mut i: usize = 0;
        while i < self.items.len()
            invariant
                i <= self.items.len(),
                forall|j: int| 0 <= j < i ==> (#[trigger] self.items@[j]).0 != key,
            decreases self.items.len() - i,
        {
            if self.items[i].0.hash == key.hash {
                proof {
                    lemma_position_found(self.items@, key, i as int);
                }
                return Some(i);
            }
            i = i + 1;
        }
        proof {
            lemma_position_absent(self.items@, key);
        }
        None
    }

    /// The value under `key`, if the map has one.
    pub fn get(&self, key: Name) -> (r: Option<&ParameterList>)
        ensures
            r == match position(self@, key) {
                Some(i) => Some(&self@[i].1),
                None => None,
            },
    {
        match self.index_of(key) {
            Some(i) => {
                proof {
                    lemma_position(self@, key);
                }
                Some(&self.items[i].1)
            },
            None => None,
        }
    }

    /// Gives `key` the value: in place where the map has the key, as a new
    /// last entry otherwise.
    pub fn insert(&mut self, key: Name, value: ParameterList)
        ensures
            final(self)@ == inserted(old(self)@, key, value),
            old(self).wf() ==> final(self).wf(),
    {
        proof {
            lemma_position(self@, key);
            if self.wf() {
                lemma_inserted_distinct(self@, key, value);
            }
        }
        match self.index_of(key) {
            Some(i) => {
                self.items.set(i, (key, value));
            },
            None => {
                self.items.push((key, value));
            },
        }
    }
}

/// An archive: its format version, the name of its schema, and its root list.
#[derive(Debug, PartialEq, Eq)]
pub struct ParameterIO {
    pub version: u32,
    pub data_type: String,
    pub param_root: ParameterList,
}

/// A list as a mathematical value; an object is the sequence of its entries.
pub struct ListV {
    pub objects: Seq<(u32, Seq<(u32, ParamV)>)>,
    pub lists: Seq<(u32, ListV)>,
}

/// An archive as a mathematical value.
pub struct IoV {
    pub version: u32,
    pub data_type: Seq<char>,
    pub param_root: ListV,
}

/// The entries of an object as mathematical values.
pub open spec fn params_view(entries: Seq<(Name, Parameter)>) -> Seq<(u32, ParamV)> {
    Seq::new(entries.len(), |i: int| (entries[i].0.hash, entries[i].1@))
}

/// The objects of a list as mathematical values.
pub open spec fn objects_view(entries: Seq<(Name, ParameterObject)>) -> Seq<
    (u32, Seq<(u32, ParamV)>),
> {
    Seq::new(entries.len(), |i: int| (entries[i].0.hash, entries[i].1@))
}

/// The lists of a list as mathematical values.
pub open spec fn lists_view(entries: Seq<(Name, ParameterList)>) -> Seq<(u32, ListV)> {
    Seq::new(entries.len(), |i: int| (entries[i].0.hash, entries[i].1.view()))
}

impl View for ParameterObject {
    type V = Seq<(u32, ParamV)>;

    open spec fn view(&self) -> Seq<(u32, ParamV)> {
        params_view(self.0@)
    }
}

impl ParameterList {
    /// The list as a mathematical value.
    pub open spec fn view(&self) -> ListV
        decreases self,
    {
        ListV {
            objects: objects_view(self.objects@),
            lists: Seq::new(
                self.lists@.len(),
                |i: int|
                    if 0 <= i < self.lists@.len() {
                        (self.lists@[i].0.hash, self.lists@[i].1.view())
                    } else {
                        (0u32, ListV { objects: Seq::empty(), lists: Seq::empty() })
                    },
            ),
        }
    }
}

impl View for ParameterIO {
    type V = IoV;

    open spec fn view(&self) -> IoV {
        IoV {
            version: self.version,
            data_type: self.data_type@,
            param_root: self.param_root.view(),
        }
    }
}

/// The lists of a list, seen through its view.
pub proof fn lemma_list_view(list: ParameterList)
    ensures
        list.view().objects == objects_view(list.objects@),
        list.view().lists == lists_view(list.lists@),
{
    assert(list.view().lists =~= lists_view(list.lists@));
}

/// A key stands in a run of entries where its hash stands in their view.
pub proof fn lemma_position_hash<V, W>(a: Seq<(Name, V)>, b: Seq<(u32, W)>, key: Name)
    requires
        a.len() == b.len(),
        forall|i: int| 0 <= i < a.len() ==> (#[trigger] b[i]).0 == a[i].0.hash,
    ensures
        position(b, key.hash) == position(a, key),
{
    lemma_position(a, key);
    lemma_position(b, key.hash);
    match position(a, key) {
        Some(i) => {
            assert(b[i].0 == key.hash);
            assert forall|j: int| 0 <= j < i implies (#[trigger] b[j]).0 != key.hash by {
                assert(a[j].0 != key);
            }
            lemma_position_found(b, key.hash, i);
        },
        None => {
            assert forall|j: int| 0 <= j < b.len() implies (#[trigger] b[j]).0 != key.hash by {
                assert(a[j].0 != key);
            }
            lemma_position_absent(b, key.hash);
        },
    }
}

/// The view of an object after a key is given a value.
pub proof fn lemma_params_inserted(entries: Seq<(Name, Parameter)>, key: Name, value: Parameter)
    ensures
        params_view(inserted(entries, key, value)) == inserted(
            params_view(entries),
            key.hash,
            value@,
        ),
{
    lemma_position_hash(entries, params_view(entries), key);
    lemma_position(entries, key);
    assert(params_view(inserted(entries, key, value)) =~= inserted(
        params_view(entries),
        key.hash,
        value@,
    ));
}

/// The view of the objects of a list after a key is given an object.
pub proof fn lemma_objects_inserted(
    entries: Seq<(Name, ParameterObject)>,
    key: Name,
    value: ParameterObject,
)
    ensures
        objects_view(inserted(entries, key, value)) == inserted(
            objects_view(entries),
            key.hash,
            value@,
        ),
{
    lemma_position_hash(entries, objects_view(entries), key);
    lemma_position(entries, key);
    assert(objects_view(inserted(entries, key, value)) =~= inserted(
        objects_view(entries),
        key.hash,
        value@,
    ));
}

/// The view of the lists of a list after a key is given a list.
pub proof fn lemma_lists_inserted(entries: Seq<(Name, ParameterList)>, key: Name, value: ParameterList)
    ensures
        lists_view(inserted(entries, key, value)) == inserted(
            lists_view(entries),
            key.hash,
            value.view(),
        ),
{
    lemma_position_hash(entries, lists_view(entries), key);
    lemma_position(entries, key);
    assert(lists_view(inserted(entries, key, value)) =~= inserted(
        lists_view(entries),
        key.hash,
        value.view(),
    ));
}

/// A list under a list is smaller than the list.
pub proof fn lemma_child_list_decreases(list: &ParameterList, i: int)
    requires
        0 <= i < list.lists@.len(),
    ensures
        decreases_to!(list => list.lists@[i].1),
{
}

/// What holds of every value stays so when a key is given a value of which
/// it holds.
pub proof fn lemma_inserted_all<K, V>(
    entries: Seq<(K, V)>,
    key: K,
    value: V,
    holds: spec_fn(V) -> bool,
)
    requires
        holds(value),
        forall|i: int| 0 <= i < entries.len() ==> holds((#[trigger] entries[i]).1),
    ensures
        forall|i: int|
            0 <= i < inserted(entries, key, value).len() ==> holds(
                (#[trigger] inserted(entries, key, value)[i]).1,
            ),
{
    lemma_position(entries, key);
}

impl ParameterObject {
    /// Whether no key of the object occurs twice.
    pub open spec fn wf(&self) -> bool {
        self.0.wf()
    }
}

impl ParameterList {
    /// Whether no key occurs twice in any map of the list, at any depth.
    pub open spec fn wf(&self) -> bool
        decreases self,
    {
        &&& self.objects.wf()
        &&& forall|i: int| 0 <= i < self.objects@.len() ==> (#[trigger] self.objects@[i]).1.wf()
        &&& self.lists.wf()
        &&& forall|i: int| 0 <= i < self.lists@.len() ==> (#[trigger] self.lists@[i]).1.wf()
    }
}

impl ParameterIO {
    /// Whether no key occurs twice in any map of the archive.
    pub open spec fn wf(&self) -> bool {
        self.param_root.wf()
    }
}

} // verus!
