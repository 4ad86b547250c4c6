//! The table that recovers names from their hashes.

use vstd::prelude::*;
use vstd::string::StrSliceExecFns;
use vstd::string::StringExecFns;
use rustc_hash::FxHashMap;
use crate::hash::{hash_name, name_hash};
use crate::laws::{law_names_have_their_hash, law_new_table_consistent};
use crate::number::{format_padded, padded_text};
use crate::text::{
    chars_of, find, find_from, lemma_find_bounds, strip_suffix, without_suffix,
};

verus! {

/// The hasher of `rustc_hash`.
#[verifier::external_type_specification]
#[verifier::external_body]
pub struct ExFxHasher(rustc_hash::FxHasher);

/// `std::hash::BuildHasherDefault`.
#[verifier::external_type_specification]
#[verifier::external_body]
#[verifier::reject_recursive_types(H)]
pub struct ExBuildHasherDefault<H>(core::hash::BuildHasherDefault<H>);

/// The map from hashes to names.
pub type Names = FxHashMap<u32, String>;

/// `FxHashMap::default`: a map without entries.
#[verifier::external_body]
fn names_new() -> (r: Names)
    ensures
        forall|hash: u32| !r@.contains_key(hash),
{
    FxHashMap::default()
}

/// `HashMap::get` on a map of `rustc_hash`: the value under the key, if the
/// map has the key.
#[verifier::external_body]
fn names_get(names: &Names, hash: u32) -> (r: Option<&String>)
    ensures
        r == if names@.contains_key(hash) {
            Some(&names@[hash])
        } else {
            None
        },
{
    names.get(&hash)
}

/// `HashMap::entry` and `Entry::or_insert` on a map of `rustc_hash`: the key
/// gets the value where the map does not have the key, and nothing changes
/// where it has.
#[verifier::external_body]
fn names_insert_new(names: &mut Names, hash: u32, name: String)
    ensures
        final(names)@ == if old(names)@.contains_key(hash) {
            old(names)@
        } else {
            old(names)@.insert(hash, name)
        },
{
    names.entry(hash).or_insert(name);
}

/// How many patterns a prefix and a position are combined in.
pub const CHILD_PATTERNS: usize = 6;

/// How many placeholders a numbered name may hold one of.
pub const PLACEHOLDERS: usize = 6;

/// The candidate that pattern `k` makes of a prefix and a position. The
/// patterns are, in order: the position in one, two and three digits, and the
/// same three after an underscore.
pub open spec fn child_name(prefix: Seq<char>, pos: nat, k: int) -> Seq<char> {
    if k == 0 {
        prefix + padded_text(pos, 1)
    } else if k == 1 {
        prefix + padded_text(pos, 2)
    } else if k == 2 {
        prefix + padded_text(pos, 3)
    } else if k == 3 {
        prefix + seq!['_'] + padded_text(pos, 1)
    } else if k == 4 {
        prefix + seq!['_'] + padded_text(pos, 2)
    } else {
        prefix + seq!['_'] + padded_text(pos, 3)
    }
}

/// The first candidate of a prefix, from pattern `k` on, whose hash is `hash`.
pub open spec fn match_child_from(prefix: Seq<char>, pos: nat, hash: u32, k: int) -> Option<
    Seq<char>,
>
    decreases CHILD_PATTERNS - k,
{
    if k < 0 || k >= CHILD_PATTERNS {
        None
    } else if name_hash(child_name(prefix, pos, k)) == hash {
        Some(child_name(prefix, pos, k))
    } else {
        match_child_from(prefix, pos, hash, k + 1)
    }
}

/// The first candidate of a prefix whose hash is `hash`.
pub open spec fn match_child(prefix: Seq<char>, pos: nat, hash: u32) -> Option<Seq<char>> {
    match_child_from(prefix, pos, hash, 0)
}

/// The first candidate of the prefix that is left when `suffix` is taken off
/// the parent's name; nothing where the name does not end with it.
pub open spec fn match_singular(parent: Seq<char>, suffix: Seq<char>, pos: nat, hash: u32) -> Option<
    Seq<char>,
> {
    match strip_suffix(parent, suffix) {
        Some(singular) => match_child(singular, pos, hash),
        None => None,
    }
}

/// The text `Children`.
pub open spec fn children_text() -> Seq<char> {
    seq!['C', 'h', 'i', 'l', 'd', 'r', 'e', 'n']
}

/// The text `Child`.
pub open spec fn child_text() -> Seq<char> {
    seq!['C', 'h', 'i', 'l', 'd']
}

/// The name that the parent's name leads to: the first candidate whose hash
/// is `hash`, with the prefixes tried in this order: the parent's name,
/// `Children`, `Child`, and the parent's name without a final `s`, `es` and
/// `List`.
pub open spec fn match_parent(parent: Seq<char>, pos: nat, hash: u32) -> Option<Seq<char>> {
    if match_child(parent, pos, hash) is Some {
        match_child(parent, pos, hash)
    } else if match_child(children_text(), pos, hash) is Some {
        match_child(children_text(), pos, hash)
    } else if match_child(child_text(), pos, hash) is Some {
        match_child(child_text(), pos, hash)
    } else if match_singular(parent, seq!['s'], pos, hash) is Some {
        match_singular(parent, seq!['s'], pos, hash)
    } else if match_singular(parent, seq!['e', 's'], pos, hash) is Some {
        match_singular(parent, seq!['e', 's'], pos, hash)
    } else {
        match_singular(parent, seq!['L', 'i', 's', 't'], pos, hash)
    }
}

/// Placeholder `k` of a numbered name. They are, in order: `%d`, `%02d`,
/// `%03d`, `%04d`, `%u`, `%02u`.
pub open spec fn placeholder_text(k: int) -> Seq<char> {
    if k == 0 {
        seq!['%', 'd']
    } else if k == 1 {
        seq!['%', '0', '2', 'd']
    } else if k == 2 {
        seq!['%', '0', '3', 'd']
    } else if k == 3 {
        seq!['%', '0', '4', 'd']
    } else if k == 4 {
        seq!['%', 'u']
    } else {
        seq!['%', '0', '2', 'u']
    }
}

/// The width that placeholder `k` asks for.
pub open spec fn placeholder_width(k: int) -> nat {
    if k == 0 || k == 4 {
        1
    } else if k == 1 || k == 5 {
        2
    } else if k == 2 {
        3
    } else {
        4
    }
}

/// A numbered name as a mathematical value: what stands before the number,
/// the width of the number, and what stands after it.
pub struct NumberedV {
    pub prefix: Seq<char>,
    pub width: nat,
    pub suffix: Seq<char>,
}

/// A numbered name cut at placeholder `k`: before its first occurrence, and
/// from there to its next occurrence or to the end.
pub open spec fn split_at(template: Seq<char>, k: int) -> Option<NumberedV> {
    let pat = placeholder_text(k);
    match find_from(template, pat, 0) {
        None => None,
        Some(i) => {
            let rest = i + pat.len();
            let end = match find_from(template, pat, rest) {
                Some(j) => j,
                None => template.len() as int,
            };
            Some(
                NumberedV {
                    prefix: template.subrange(0, i),
                    width: placeholder_width(k),
                    suffix: template.subrange(rest, end),
                },
            )
        },
    }
}

/// A numbered name cut at the first placeholder, from `k` on, that it holds.
pub open spec fn split_from(template: Seq<char>, k: int) -> Option<NumberedV>
    decreases PLACEHOLDERS - k,
{
    if k < 0 || k >= PLACEHOLDERS {
        None
    } else if split_at(template, k) is Some {
        split_at(template, k)
    } else {
        split_from(template, k + 1)
    }
}

/// A numbered name cut at its placeholder; nothing where it holds none.
pub open spec fn split_template(template: Seq<char>) -> Option<NumberedV> {
    split_from(template, 0)
}

/// The name that a numbered name gives for a position.
pub open spec fn render(numbered: NumberedV, pos: nat) -> Seq<char> {
    numbered.prefix + padded_text(pos, numbered.width) + numbered.suffix
}

/// The name that a template gives for a position; nothing where the template
/// holds no placeholder.
pub open spec fn numbered_name(template: Seq<char>, pos: nat) -> Option<Seq<char>> {
    match split_template(template) {
        Some(numbered) => Some(render(numbered, pos)),
        None => None,
    }
}

/// The first name that a numbered name gives for a position in `from..limit`
/// and whose hash is `hash`.
pub open spec fn match_numbered_from(numbered: NumberedV, hash: u32, from: nat, limit: nat) -> Option<
    Seq<char>,
>
    decreases limit - from,
{
    if from >= limit {
        None
    } else if name_hash(render(numbered, from)) == hash {
        Some(render(numbered, from))
    } else {
        match_numbered_from(numbered, hash, from + 1, limit)
    }
}

/// The first name with the hash `hash` among those that the numbered names
/// from `k` on give for the positions below `limit`: all positions of one
/// numbered name come before the next numbered name.
pub open spec fn match_numbered_names(
    numbered: Seq<NumberedV>,
    hash: u32,
    limit: nat,
    k: int,
) -> Option<Seq<char>>
    decreases numbered.len() - k,
{
    if k < 0 || k >= numbered.len() {
        None
    } else if match_numbered_from(numbered[k], hash, 0, limit) is Some {
        match_numbered_from(numbered[k], hash, 0, limit)
    } else {
        match_numbered_names(numbered, hash, limit, k + 1)
    }
}

/// A table as a mathematical value: the names it knows by hash, and its
/// numbered names in order.
pub struct TableV {
    pub names: Map<u32, Seq<char>>,
    pub numbered: Seq<NumberedV>,
}

/// The table after it is told a name for a hash: the first name that a hash
/// was given stays.
pub open spec fn learn(table: TableV, hash: u32, name: Seq<char>) -> TableV {
    if table.names.contains_key(hash) {
        table
    } else {
        TableV { names: table.names.insert(hash, name), numbered: table.numbered }
    }
}

/// The name that a table has for a hash, for an entry at `index` in the
/// structure with the hash `parent_hash`:
/// the name it knows for the hash; or else, where it knows the parent's name,
/// the name that this leads to; or else the first name that its numbered
/// names give for the positions up to `index + 1`.
pub open spec fn guess(table: TableV, hash: u32, index: nat, parent_hash: u32) -> Option<Seq<char>> {
    if table.names.contains_key(hash) {
        Some(table.names[hash])
    } else if table.names.contains_key(parent_hash) && match_parent(
        table.names[parent_hash],
        index,
        hash,
    ) is Some {
        match_parent(table.names[parent_hash], index, hash)
    } else {
        match_numbered_names(table.numbered, hash, index + 2, 0)
    }
}

/// The table after it was asked for a name: it has learnt the name it found.
pub open spec fn after_guess(table: TableV, hash: u32, index: nat, parent_hash: u32) -> TableV {
    match guess(table, hash, index, parent_hash) {
        Some(name) => learn(table, hash, name),
        None => table,
    }
}

/// Whether every name that the table knows has the hash it stands under.
pub open spec fn consistent(table: TableV) -> bool {
    forall|hash: u32| #[trigger]
        table.names.contains_key(hash) ==> name_hash(table.names[hash]) == hash
}

/// The text of an optional string.
pub open spec fn text_of(name: Option<String>) -> Option<Seq<char>> {
    match name {
        Some(text) => Some(text@),
        None => None,
    }
}

/// The candidate that pattern `k` makes of a prefix and a position; nothing
/// for a `k` past the last pattern.
pub fn format_child(prefix: &str, pos: usize, k: usize) -> (r: Option<String>)
    ensures
        text_of(r) == if k < CHILD_PATTERNS {
            Some(child_name(prefix@, pos as nat, k as int))
        } else {
            None
        },
{
    if k >= CHILD_PATTERNS {
        return None;
    }
    let mut name = String::from_str(prefix);
    if k >= 3 {
        proof {
            reveal_strlit("_");
        }
        name.append("_");
    }
    let width: usize = if k == 0 || k == 3 {
        1
    } else if k == 1 || k == 4 {
        2
    } else {
        3
    };
    let number = format_padded(pos as u128, width);
    name.append(number.as_str());
    assert(name@ =~= child_name(prefix@, pos as nat, k as int));
    Some(name)
}

/// The first candidate of a prefix whose hash is `hash`.
pub fn test_names(hash: u32, pos: usize, prefix: &str) -> (r: Option<String>)
    ensures
        text_of(r) == match_child(prefix@, pos as nat, hash),
{
    let mut k: usize = 0;
    while k < CHILD_PATTERNS
        invariant
            k <= CHILD_PATTERNS,
            match_child(prefix@, pos as nat, hash) == match_child_from(
                prefix@,
                pos as nat,
                hash,
                k as int,
            ),
        decreases CHILD_PATTERNS - k,
    {
        match format_child(prefix, pos, k) {
            Some(name) => {
                if hash_name(name.as_str()) == hash {
                    return Some(name);
                }
            },
            None => {},
        }
        k = k + 1;
    }
    None
}

/// The first candidate of the prefix that is left when `suffix` is taken off
/// the parent's name.
fn test_singular(hash: u32, pos: usize, parent: &str, suffix: &str) -> (r: Option<String>)
    ensures
        text_of(r) == match_singular(parent@, suffix@, pos as nat, hash),
{
    match without_suffix(parent, suffix) {
        Some(singular) => test_names(hash, pos, singular),
        None => None,
    }
}

/// The name that the parent's name leads to.
pub fn guess_from_parent(hash: u32, pos: usize, parent: &str) -> (r: Option<String>)
    ensures
        text_of(r) == match_parent(parent@, pos as nat, hash),
{
    proof {
        reveal_strlit("Children");
        reveal_strlit("Child");
        reveal_strlit("s");
        reveal_strlit("es");
        reveal_strlit("List");
        assert("Children"@ =~= children_text());
        assert("Child"@ =~= child_text());
        assert("s"@ =~= seq!['s']);
        assert("es"@ =~= seq!['e', 's']);
        assert("List"@ =~= seq!['L', 'i', 's', 't']);
    }
    let by_parent = test_names(hash, pos, parent);
    if by_parent.is_some() {
        return by_parent;
    }
    let by_children = test_names(hash, pos, "Children");
    if by_children.is_some() {
        return by_children;
    }
    let by_child = test_names(hash, pos, "Child");
    if by_child.is_some() {
        return by_child;
    }
    let without_s = test_singular(hash, pos, parent, "s");
    if without_s.is_some() {
        return without_s;
    }
    let without_es = test_singular(hash, pos, parent, "es");
    if without_es.is_some() {
        return without_es;
    }
    test_singular(hash, pos, parent, "List")
}

/// Placeholder `k` and the width it asks for.
fn placeholder(k: usize) -> (r: (&'static str, usize))
    requires
        k < PLACEHOLDERS,
    ensures
        r.0@ == placeholder_text(k as int),
        r.1 == placeholder_width(k as int),
{
    proof {
        reveal_strlit("%d");
        reveal_strlit("%02d");
        reveal_strlit("%03d");
        reveal_strlit("%04d");
        reveal_strlit("%u");
        reveal_strlit("%02u");
    }
    let r = if k == 0 {
        ("%d", 1usize)
    } else if k == 1 {
        ("%02d", 2usize)
    } else if k == 2 {
        ("%03d", 3usize)
    } else if k == 3 {
        ("%04d", 4usize)
    } else if k == 4 {
        ("%u", 1usize)
    } else {
        ("%02u", 2usize)
    };
    assert(r.0@ =~= placeholder_text(k as int));
    r
}

/// The first placeholder that is the text `format`.
pub open spec fn placeholder_of(format: Seq<char>, k: int) -> Option<int>
    decreases PLACEHOLDERS - k,
{
    if k < 0 || k >= PLACEHOLDERS {
        None
    } else if placeholder_text(k) == format {
        Some(k)
    } else {
        placeholder_of(format, k + 1)
    }
}

/// The number that a placeholder stands for at a position: in as many digits
/// as the placeholder asks for. Nothing for a text that is no placeholder.
pub fn format_number(format: &str, pos: usize) -> (r: Option<String>)
    ensures
        text_of(r) == match placeholder_of(format@, 0) {
            Some(k) => Some(padded_text(pos as nat, placeholder_width(k))),
            None => None,
        },
{
    let mut k: usize = 0;
    while k < PLACEHOLDERS
        invariant
            k <= PLACEHOLDERS,
            placeholder_of(format@, 0) == placeholder_of(format@, k as int),
        decreases PLACEHOLDERS - k,
    {
        let (text, width) = placeholder(k);
        if crate::text::same_text(text, format) {
            return Some(format_padded(pos as u128, width));
        }
        k = k + 1;
    }
    None
}

/// A numbered name: what stands before the number, the width of the number,
/// and what stands after it.
#[derive(Debug)]
pub struct NumberedName {
    pub prefix: String,
    pub width: usize,
    pub suffix: String,
}

impl View for NumberedName {
    type V = NumberedV;

    open spec fn view(&self) -> NumberedV {
        NumberedV { prefix: self.prefix@, width: self.width as nat, suffix: self.suffix@ }
    }
}

/// The view of an optional numbered name.
pub open spec fn numbered_of(numbered: Option<NumberedName>) -> Option<NumberedV> {
    match numbered {
        Some(n) => Some(n@),
        None => None,
    }
}

impl NumberedName {
    /// Cuts a template at its placeholder.
    pub fn parse(template: &str) -> (r: Option<NumberedName>)
        ensures
            numbered_of(r) == split_template(template@),
    {
        let chars = chars_of(template);
        let mut k: usize = 0;
        while k < PLACEHOLDERS
            invariant
                k <= PLACEHOLDERS,
                chars@ == template@,
                split_template(template@) == split_from(template@, k as int),
            decreases PLACEHOLDERS - k,
        {
            let (text, width) = placeholder(k);
            let pat = chars_of(text);
            match find(&chars, &pat, 0) {
                Some(i) => {
                    proof {
                        lemma_find_bounds(chars@, pat@, 0);
                    }
                    let len = chars.len();
                    assert(i + pat.len() <= len);
                    let rest = i + pat.len();
                    let end = match find(&chars, &pat, rest) {
                        Some(j) => j,
                        None => len,
                    };
                    proof {
                        lemma_find_bounds(chars@, pat@, rest as int);
                    }
                    let prefix = String::from_str(template.substring_char(0, i));
                    let suffix = String::from_str(template.substring_char(rest, end));
                    return Some(NumberedName { prefix, width, suffix });
                },
                None => {},
            }
            k = k + 1;
        }
        None
    }

    /// The name for a position.
    pub fn render(&self, pos: u128) -> (r: String)
        ensures
            r@ == render(self@, pos as nat),
    {
        let mut name = self.prefix.clone();
        let number = format_padded(pos, self.width);
        name.append(number.as_str());
        name.append(self.suffix.as_str());
        name
    }

    /// The first name for a position below `limit` whose hash is `hash`.
    pub fn test(&self, hash: u32, limit: u128) -> (r: Option<String>)
        ensures
            text_of(r) == match_numbered_from(self@, hash, 0, limit as nat),
    {
        let mut pos: u128 = 0;
        while pos < limit
            invariant
                pos <= limit,
                match_numbered_from(self@, hash, 0, limit as nat) == match_numbered_from(
                    self@,
                    hash,
                    pos as nat,
                    limit as nat,
                ),
            decreases limit - pos,
        {
            let name = self.render(pos);
            if hash_name(name.as_str()) == hash {
                return Some(name);
            }
            pos = pos + 1;
        }
        None
    }
}

/// The name that a template gives for a position; nothing where the template
/// holds no placeholder.
pub fn format_numbered_name(name: &str, pos: usize) -> (r: Option<String>)
    ensures
        text_of(r) == numbered_name(name@, pos as nat),
{
    match NumberedName::parse(name) {
        Some(numbered) => Some(numbered.render(pos as u128)),
        None => None,
    }
}

/// The table after it is told each of the names, in order, under its hash.
pub open spec fn learn_all(table: TableV, names: Seq<Seq<char>>) -> TableV
    decreases names.len(),
{
    if names.len() == 0 {
        table
    } else {
        learn(learn_all(table, names.drop_last()), name_hash(names.last()), names.last())
    }
}

/// The numbered names that the templates hold: each template that has a
/// placeholder, cut there, in order.
pub open spec fn split_all(templates: Seq<Seq<char>>) -> Seq<NumberedV>
    decreases templates.len(),
{
    if templates.len() == 0 {
        Seq::empty()
    } else {
        match split_template(templates.last()) {
            Some(numbered) => split_all(templates.drop_last()).push(numbered),
            None => split_all(templates.drop_last()),
        }
    }
}

/// The texts of a run of string slices.
pub open spec fn texts_of(names: Seq<&'static str>) -> Seq<Seq<char>> {
    Seq::new(names.len(), |i: int| names[i]@)
}

/// The names that a table is seeded with on request.
pub open spec fn builtin_names() -> Seq<Seq<char>> {
    seq![
        "AI"@,
        "Action"@,
        "Behavior"@,
        "Query"@,
        "Demo"@,
        "Children"@,
        "Child"@,
        "ClassName"@,
        "Name"@,
        "GroupName"@,
        "Def"@,
        "ChildIdx"@,
        "BehaviorIdx"@,
        "SInst"@,
        "param_root"@,
        "LinkTarget"@,
        "ActorNameJpn"@,
        "AIProgramUser"@,
        "AIScheduleUser"@,
        "ASUser"@,
        "AttentionUser"@,
        "AwarenessUser"@,
        "BoneControlUser"@,
        "ActorCaptureUser"@,
        "ChemicalUser"@,
        "DamageParamUser"@,
        "DropTableUser"@,
        "ElinkUser"@,
        "GParamUser"@,
        "LifeConditionUser"@,
        "LODUser"@,
        "ModelUser"@,
        "PhysicsUser"@,
        "ProfileUser"@,
        "RgBlendWeightUser"@,
        "RgConfigListUser"@,
        "RecipeUser"@,
        "ShopDataUser"@,
        "SlinkUser"@,
        "UMiiUser"@,
        "XlinkUser"@,
        "AnimationInfo"@,
        "ActorScale"@,
        "Tags"@,
    ]
}

/// The templates that a table is seeded with on request.
pub open spec fn builtin_templates() -> Seq<Seq<char>> {
    seq!["AI_%d"@, "Action_%d"@, "Behavior_%d"@, "Query_%d"@, "Child%d"@, "Item%03d"@]
}

/// The names that a table is seeded with on request.
pub fn builtin_name_list() -> (r: Vec<&'static str>)
    ensures
        texts_of(r@) == builtin_names(),
{
    let mut names: Vec<&'static str> = Vec::new();
    names.push("AI");
    names.push("Action");
    names.push("Behavior");
    names.push("Query");
    names.push("Demo");
    names.push("Children");
    names.push("Child");
    names.push("ClassName");
    names.push("Name");
    names.push("GroupName");
    names.push("Def");
    names.push("ChildIdx");
    names.push("BehaviorIdx");
    names.push("SInst");
    names.push("param_root");
    names.push("LinkTarget");
    names.push("ActorNameJpn");
    names.push("AIProgramUser");
    names.push("AIScheduleUser");
    names.push("ASUser");
    names.push("AttentionUser");
    names.push("AwarenessUser");
    names.push("BoneControlUser");
    names.push("ActorCaptureUser");
    names.push("ChemicalUser");
    names.push("DamageParamUser");
    names.push("DropTableUser");
    names.push("ElinkUser");
    names.push("GParamUser");
    names.push("LifeConditionUser");
    names.push("LODUser");
    names.push("ModelUser");
    names.push("PhysicsUser");
    names.push("ProfileUser");
    names.push("RgBlendWeightUser");
    names.push("RgConfigListUser");
    names.push("RecipeUser");
    names.push("ShopDataUser");
    names.push("SlinkUser");
    names.push("UMiiUser");
    names.push("XlinkUser");
    names.push("AnimationInfo");
    names.push("ActorScale");
    names.push("Tags");
    assert(texts_of(names@) =~= builtin_names());
    names
}

/// The templates that a table is seeded with on request.
pub fn builtin_template_list() -> (r: Vec<&'static str>)
    ensures
        texts_of(r@) == builtin_templates(),
{
    let mut templates: Vec<&'static str> = Vec::new();
    templates.push("AI_%d");
    templates.push("Action_%d");
    templates.push("Behavior_%d");
    templates.push("Query_%d");
    templates.push("Child%d");
    templates.push("Item%03d");
    assert(texts_of(templates@) =~= builtin_templates());
    templates
}

/// The table without names and without numbered names.
pub open spec fn empty_table() -> TableV {
    TableV { names: Map::empty(), numbered: Seq::empty() }
}

/// The table that holds the built-in names and numbered names.
pub open spec fn builtin_table() -> TableV {
    TableV {
        names: learn_all(empty_table(), builtin_names()).names,
        numbered: split_all(builtin_templates()),
    }
}

/// A table of names, by which the names of an archive are found again from
/// their hashes. It holds the names it was told and those it has found, and
/// a list of numbered names. A name once held for a hash stays.
#[derive(Debug)]
pub struct NameTable {
    names: Names,
    numbered_names: Vec<NumberedName>,
}

impl View for NameTable {
    type V = TableV;

    closed spec fn view(&self) -> TableV {
        TableV {
            names: Map::new(|hash: u32| self.names@.contains_key(hash), |hash: u32| self.names@[hash]@),
            numbered: Seq::new(self.numbered_names@.len(), |i: int| self.numbered_names@[i]@),
        }
    }
}

impl NameTable {
    /// Whether every name of the table stands under its own hash. A new
    /// table is such a table, and it stays one as long as it is told no name
    /// under a hash that is not that of the name.
    pub open spec fn wf(&self) -> bool {
        consistent(self@)
    }

    /// A new table: with the built-in names and numbered names where
    /// `botw_strings` is set, empty otherwise.
    pub fn new(botw_strings: bool) -> (r: NameTable)
        ensures
            r@ == if botw_strings {
                builtin_table()
            } else {
                empty_table()
            },
            r.wf(),
    {
        proof {
            law_new_table_consistent();
        }
        let mut table = NameTable { names: names_new(), numbered_names: Vec::new() };
        assert(table@.names =~= empty_table().names);
        assert(table@.numbered =~= empty_table().numbered);
        if botw_strings {
            let names = builtin_name_list();
            let mut i: usize = 0;
            while i < names.len()
                invariant
                    i <= names.len(),
                    table@ == learn_all(empty_table(), texts_of(names@).take(i as int)),
                    table@.numbered == Seq::<NumberedV>::empty(),
                decreases names.len() - i,
            {
                proof {
                    assert(texts_of(names@).take(i + 1).drop_last() =~= texts_of(names@).take(
                        i as int,
                    ));
                }
                table.add_name_str(names[i]);
                i = i + 1;
            }
            assert(texts_of(names@).take(i as int) =~= texts_of(names@));
            let templates = builtin_template_list();
            let mut k: usize = 0;
            while k < templates.len()
                invariant
                    k <= templates.len(),
                    table@.names == learn_all(empty_table(), builtin_names()).names,
                    table@.numbered == split_all(texts_of(templates@).take(k as int)),
                decreases templates.len() - k,
            {
                proof {
                    assert(texts_of(templates@).take(k + 1).drop_last() =~= texts_of(
                        templates@,
                    ).take(k as int));
                }
                let ghost before = table@;
                match NumberedName::parse(templates[k]) {
                    Some(numbered) => {
                        table.numbered_names.push(numbered);
                        assert(table@.numbered =~= before.numbered.push(numbered@));
                        assert(table@.names =~= before.names);
                    },
                    None => {},
                }
                k = k + 1;
            }
            assert(texts_of(templates@).take(k as int) =~= texts_of(templates@));
        }
        table
    }

    /// Tells the table a name. Where it holds a name for the hash of this one
    /// already, nothing changes.
    pub fn add_name(&mut self, name: String)
        ensures
            final(self)@ == learn(old(self)@, name_hash(name@), name@),
            old(self).wf() ==> final(self).wf(),
    {
        let hash = hash_name(name.as_str());
        self.add_name_with_hash(name, hash);
    }

    /// Tells the table a name and the hash to hold it under. Where it holds a
    /// name for the hash already, nothing changes.
    pub fn add_name_with_hash(&mut self, name: String, hash: u32)
        ensures
            final(self)@ == learn(old(self)@, hash, name@),
            old(self).wf() && name_hash(name@) == hash ==> final(self).wf(),
    {
        let ghost before = self@;
        names_insert_new(&mut self.names, hash, name);
        assert(self@.names =~= learn(before, hash, name@).names);
        assert(self@.numbered =~= before.numbered);
    }

    /// Tells the table a name, given as a slice.
    pub fn add_name_str(&mut self, name: &str)
        ensures
            final(self)@ == learn(old(self)@, name_hash(name@), name@),
            old(self).wf() ==> final(self).wf(),
    {
        let hash = hash_name(name);
        self.add_name_with_hash(String::from_str(name), hash);
    }

    /// The first name with the hash `hash` that the numbered names give for
    /// the positions below `limit`.
    fn test_numbered_names(&self, hash: u32, limit: u128) -> (r: Option<String>)
        ensures
            text_of(r) == match_numbered_names(self@.numbered, hash, limit as nat, 0),
    {
        let mut k: usize = 0;
        while k < self.numbered_names.len()
            invariant
                k <= self.numbered_names.len(),
                match_numbered_names(self@.numbered, hash, limit as nat, 0)
                    == match_numbered_names(self@.numbered, hash, limit as nat, k as int),
            decreases self.numbered_names.len() - k,
        {
            let found = self.numbered_names[k].test(hash, limit);
            if found.is_some() {
                return found;
            }
            k = k + 1;
        }
        None
    }

    /// The name for a hash, of an entry at `index` in the structure with the
    /// hash `parent_hash`. A name that the table did not hold and has found is
    /// held from now on.
    pub fn get_name(&mut self, hash: u32, index: usize, parent_hash: u32) -> (r: Option<String>)
        ensures
            text_of(r) == guess(old(self)@, hash, index as nat, parent_hash),
            final(self)@ == after_guess(old(self)@, hash, index as nat, parent_hash),
            old(self).wf() ==> final(self).wf(),
    {
        proof {
            if self.wf() {
                law_names_have_their_hash(self@, hash, index as nat, parent_hash);
            }
        }
        match names_get(&self.names, hash) {
            Some(name) => {
                return Some(name.clone());
            },
            None => {},
        }
        let by_parent = match names_get(&self.names, parent_hash) {
            Some(parent) => guess_from_parent(hash, index, parent.as_str()),
            None => None,
        };
        let found = if by_parent.is_some() {
            by_parent
        } else {
            self.test_numbered_names(hash, index as u128 + 2)
        };
        match found {
            Some(name) => {
                self.add_name_with_hash(name.clone(), hash);
                Some(name)
            },
            None => None,
        }
    }
}

} // verus!
