//! Types, and the resolution of type and function names.

use rustc_hash::FxHasher;
use std::collections::HashMap;
use std::hash::{Hash, Hasher};

use vstd::prelude::*;
use vstd::string::*;

use crate::analyze::Span;
use crate::text;

pub mod resolve;
pub mod shape;

verus! {

broadcast use vstd::std_specs::hash::group_hash_axioms;

/// How many values a machine word has, for a given width in bits.
pub open spec fn word_range(width: int) -> int {
    if width == 64 {
        0x1_0000_0000_0000_0000
    } else {
        0x1_0000_0000
    }
}

/// The state of an `FxHasher` behind one more machine word: their sum, multiplied by a constant.
pub open spec fn fx_step(width: int, state: int, word: int) -> int {
    let factor = if width == 64 {
        0xf135_7aea_2e62_a9c5int
    } else {
        0x93d7_65ddint
    };
    ((state + word) * factor) % word_range(width)
}

/// The value of an `FxHasher` in a given state: the state with its bits rotated to the left, by 26
/// places, or by 15 where a word has 32 bits.
pub open spec fn fx_finish(width: int, state: int) -> int {
    if width == 64 {
        (state % 0x40_0000_0000) * 0x400_0000 + state / 0x40_0000_0000
    } else {
        (state % 0x2_0000) * 0x8000 + state / 0x2_0000
    }
}

/// The `FxHasher` value of one machine word, for a given width of the word in bits.
#[verifier::opaque]
pub open spec fn fx_of_word(width: int, word: usize) -> u64 {
    fx_finish(width, fx_step(width, 0, word as int)) as u64
}

/// The state of an `FxHasher` behind a 64-bit number, which is two words where a word has 32 bits.
pub open spec fn fx_long(width: int, state: int, n: u64) -> int {
    if width == 64 {
        fx_step(width, state, n as int)
    } else {
        fx_step(width, fx_step(width, state, n as int % 0x1_0000_0000), n as int / 0x1_0000_0000)
    }
}

/// The `FxHasher` value of two 64-bit numbers, for a given width of a machine word in bits.
#[verifier::opaque]
pub open spec fn fx_of_pair(width: int, a: u64, b: u64) -> u64 {
    fx_finish(width, fx_long(width, fx_long(width, 0, a), b)) as u64
}

/// The `FxHasher` value of a text, for a given pointer width in bits.
pub uninterp spec fn fx_of_text(width: int, s: Seq<char>) -> u64;

/// `rustc_hash::FxHasher`, fed with one machine word. The hasher begins with a zero, adds the word,
/// multiplies and rotates, all of it in a `usize`.
#[verifier::external_body]
fn fx_word(word: usize) -> (r: u64)
    ensures
        r == fx_of_word(usize::BITS as int, word),
{
    let mut hasher = FxHasher::default();
    hasher.write_usize(word);
    hasher.finish()
}

/// `rustc_hash::FxHasher`, fed with two 64-bit numbers. The hasher begins with a zero, adds each
/// number and multiplies, and rotates in the end, all of it in a `usize`: where that has 32 bits,
/// each number is fed in two halves, the lower one first.
#[verifier::external_body]
fn fx_pair(a: u64, b: u64) -> (r: u64)
    ensures
        r == fx_of_pair(usize::BITS as int, a, b),
{
    let mut hasher = FxHasher::default();
    hasher.write_u64(a);
    hasher.write_u64(b);
    hasher.finish()
}

/// `rustc_hash::FxHasher`, fed with a text through the standard library's `Hash`. The value
/// depends on the text and on the pointer width. (`sparc64` and `wasm64` mix the bytes as 32-bit
/// targets do; on these the name stands for that value.)
#[verifier::external_body]
fn fx_text(s: &str) -> (r: u64)
    ensures
        r == fx_of_text(usize::BITS as int, s@),
{
    let mut hasher = FxHasher::default();
    s.hash(&mut hasher);
    hasher.finish()
}

#[derive(Debug, Clone, Copy, PartialEq, Eq, Structural)]
pub enum Sign {
    Signed,
    Unsigned,
}

#[derive(Debug, Clone, Copy, PartialEq, Eq, Structural, Hash)]
pub enum Primitive {
    Unit,
    I8,
    I64,
    U8,
    U64,
    Char,
    Bool,
}

/// How a primitive type is written.
pub open spec fn primitive_name(p: Primitive) -> Seq<char> {
    match p {
        Primitive::Unit => "()"@,
        Primitive::I8 => "i8"@,
        Primitive::I64 => "i64"@,
        Primitive::U8 => "u8"@,
        Primitive::U64 => "u64"@,
        Primitive::Char => "char"@,
        Primitive::Bool => "bool"@,
    }
}

/// The primitive type with a given name.
pub open spec fn primitive_of(name: Seq<char>) -> Option<Primitive> {
    if exists|p: Primitive| #[trigger] primitive_name(p) == name {
        Some(choose|p: Primitive| #[trigger] primitive_name(p) == name)
    } else {
        None
    }
}

/// Primitive types have different names, and each is read from its own name.
pub proof fn law_primitive_names(p: Primitive, q: Primitive)
    ensures
        primitive_name(p) == primitive_name(q) ==> p == q,
        primitive_of(primitive_name(p)) == Some(p),
{
    assert forall|p: Primitive, q: Primitive| primitive_name(p) == primitive_name(q) implies p
        == q by {
        reveal_strlit("()");
        reveal_strlit("i8");
        reveal_strlit("i64");
        reveal_strlit("u8");
        reveal_strlit("u64");
        reveal_strlit("char");
        reveal_strlit("bool");
        let x = primitive_name(p);
        let y = primitive_name(q);
        assert(x.len() == y.len());
        assert(x[0] == y[0]);
    }
    assert(exists|r: Primitive| #[trigger] primitive_name(r) == primitive_name(p));
}

/// Whether the numbers of a type have a sign; `None` for a type without numbers.
pub open spec fn primitive_sign(p: Primitive) -> Option<Sign> {
    match p {
        Primitive::I8 | Primitive::I64 => Some(Sign::Signed),
        Primitive::U8 | Primitive::U64 => Some(Sign::Unsigned),
        Primitive::Unit | Primitive::Char | Primitive::Bool => None,
    }
}

/// The position of a primitive type in the list of all.
pub open spec fn primitive_index(p: Primitive) -> usize {
    match p {
        Primitive::Unit => 0,
        Primitive::I8 => 1,
        Primitive::I64 => 2,
        Primitive::U8 => 3,
        Primitive::U64 => 4,
        Primitive::Char => 5,
        Primitive::Bool => 6,
    }
}

impl Primitive {
    pub fn sign(&self) -> (r: Option<Sign>)
        ensures
            r == primitive_sign(*self),
    {
        match self {
            Primitive::I8 | Primitive::I64 => Some(Sign::Signed),
            Primitive::U8 | Primitive::U64 => Some(Sign::Unsigned),
            Primitive::Unit | Primitive::Char | Primitive::Bool => None,
        }
    }

    pub fn parse(s: &str) -> (r: Option<Primitive>)
        ensures
            r == primitive_of(s@),
    {
        let p = if text::str_eq(s, "()") {
            Primitive::Unit
        } else if text::str_eq(s, "i8") {
            Primitive::I8
        } else if text::str_eq(s, "i64") {
            Primitive::I64
        } else if text::str_eq(s, "u8") {
            Primitive::U8
        } else if text::str_eq(s, "u64") {
            Primitive::U64
        } else if text::str_eq(s, "char") {
            Primitive::Char
        } else if text::str_eq(s, "bool") {
            Primitive::Bool
        } else {
            proof {
                assert forall|p: Primitive| #[trigger] primitive_name(p) != s@ by {
                    match p {
                        Primitive::Unit => {},
                        _ => {},
                    }
                }
            }
            return None;
        };
        proof {
            law_primitive_names(p, p);
        }
        Some(p)
    }

    /// The name of the type.
    pub fn name(&self) -> (r: &'static str)
        ensures
            r@ == primitive_name(*self),
    {
        match self {
            Primitive::Unit => "()",
            Primitive::I8 => "i8",
            Primitive::I64 => "i64",
            Primitive::U8 => "u8",
            Primitive::U64 => "u64",
            Primitive::Char => "char",
            Primitive::Bool => "bool",
        }
    }

    fn index(&self) -> (r: usize)
        ensures
            r == primitive_index(*self),
    {
        match self {
            Primitive::Unit => 0,
            Primitive::I8 => 1,
            Primitive::I64 => 2,
            Primitive::U8 => 3,
            Primitive::U64 => 4,
            Primitive::Char => 5,
            Primitive::Bool => 6,
        }
    }
}

/// A type as it is written in a program.
pub enum ParsedType {
    Primitive(Primitive),
    Pointer(Box<ParsedType>),
    Struct(String),
}

/// What a [`ParsedType`] says.
pub enum ParsedTypeV {
    Primitive(Primitive),
    Pointer(Box<ParsedTypeV>),
    Struct(Seq<char>),
}

impl View for ParsedType {
    type V = ParsedTypeV;

    open spec fn view(&self) -> ParsedTypeV {
        self.written()
    }
}

impl ParsedType {
    pub open spec fn written(&self) -> ParsedTypeV
        decreases self,
    {
        match self {
            ParsedType::Primitive(p) => ParsedTypeV::Primitive(*p),
            ParsedType::Pointer(t) => ParsedTypeV::Pointer(Box::new(t.written())),
            ParsedType::Struct(s) => ParsedTypeV::Struct(s@),
        }
    }
}

/// The type that a text denotes: each star at its end makes a pointer.
pub open spec fn parsed_type(s: Seq<char>) -> ParsedTypeV
    decreases s.len(),
{
    if s.len() > 0 && s.last() == '*' {
        ParsedTypeV::Pointer(Box::new(parsed_type(s.drop_last())))
    } else {
        match primitive_of(s) {
            Some(p) => ParsedTypeV::Primitive(p),
            None => ParsedTypeV::Struct(s),
        }
    }
}

/// How a type is shown: a star in front for each pointer.
pub open spec fn shown_type(t: ParsedTypeV) -> Seq<char>
    decreases t,
{
    match t {
        ParsedTypeV::Primitive(p) => primitive_name(p),
        ParsedTypeV::Pointer(t) => "*"@ + shown_type(*t),
        ParsedTypeV::Struct(s) => s,
    }
}

impl ParsedType {
    pub fn sign(&self) -> (r: Option<Sign>)
        ensures
            r == match self@ {
                ParsedTypeV::Primitive(p) => primitive_sign(p),
                _ => None,
            },
    {
        match self {
            ParsedType::Primitive(primitive) => primitive.sign(),
            _ => None,
        }
    }

    /// The type that `string` denotes.
    pub fn read(string: &str) -> (r: ParsedType)
        ensures
            r@ == parsed_type(string@),
        decreases string@.len(),
    {
        let n = string.unicode_len();
        if n > 0 && string.get_char(n - 1) == '*' {
            let inner = string.substring_char(0, n - 1);
            proof {
                assert(inner@ =~= string@.drop_last());
            }
            return ParsedType::Pointer(Box::new(ParsedType::read(inner)));
        }
        match Primitive::parse(string) {
            Some(p) => ParsedType::Primitive(p),
            None => ParsedType::Struct(string.to_owned()),
        }
    }

    /// The text that shows the type.
    pub fn show(&self) -> (r: String)
        ensures
            r@ == shown_type(self@),
        decreases self,
    {
        match self {
            ParsedType::Primitive(p) => p.name().to_owned(),
            ParsedType::Pointer(t) => text::join2("*", t.show().as_str()),
            ParsedType::Struct(s) => s.clone(),
        }
    }

    pub fn duplicate(&self) -> (r: ParsedType)
        ensures
            r@ == self@,
        decreases self,
    {
        match self {
            ParsedType::Primitive(p) => ParsedType::Primitive(*p),
            ParsedType::Pointer(t) => ParsedType::Pointer(Box::new(t.duplicate())),
            ParsedType::Struct(s) => ParsedType::Struct(s.clone()),
        }
    }
}

/// Identifies a type.
#[derive(Debug, Clone, Copy, PartialEq, Eq, Structural)]
pub struct TypeId(pub u64);

impl View for TypeId {
    type V = TypeId;

    open spec fn view(&self) -> TypeId {
        *self
    }
}

pub const PTR_HASH_VAL: u64 = 1779033703;

/// The identity of a primitive type.
pub open spec fn primitive_id(p: Primitive) -> TypeId {
    TypeId(fx_of_word(usize::BITS as int, primitive_index(p)))
}

/// The identity of the unit type is zero.
pub proof fn law_unit_id()
    ensures
        primitive_id(Primitive::Unit) == TypeId(0),
{
    reveal(fx_of_word);
}

/// Primitive types have different identities.
pub proof fn law_primitive_ids(p: Primitive, q: Primitive)
    ensures
        primitive_id(p) == primitive_id(q) ==> p == q,
{
    reveal(fx_of_word);
}

/// The identity of the type of pointers to `t`.
pub open spec fn pointer_id(t: TypeId) -> TypeId {
    TypeId(fx_of_pair(usize::BITS as int, t.0, PTR_HASH_VAL))
}

/// The hash of a path.
pub open spec fn path_hash(s: Seq<char>) -> u64 {
    fx_of_text(usize::BITS as int, s)
}

/// The identity of the struct with a given path.
pub open spec fn struct_id(path: Seq<char>) -> TypeId {
    TypeId(path_hash(path))
}

/// The identity of a type.
pub open spec fn type_id(t: ParsedTypeV) -> TypeId
    decreases t,
{
    match t {
        ParsedTypeV::Primitive(p) => primitive_id(p),
        ParsedTypeV::Pointer(t) => pointer_id(type_id(*t)),
        ParsedTypeV::Struct(path) => struct_id(path),
    }
}

/// Whether one of two integer types can stand for the other: both have 64 bits.
pub open spec fn compatible(a: TypeId, b: TypeId) -> bool {
    &&& a == primitive_id(Primitive::U64) || a == primitive_id(Primitive::I64)
    &&& b == primitive_id(Primitive::U64) || b == primitive_id(Primitive::I64)
}

/// Of the primitive types, the 64-bit integers are compatible with each other and with themselves, and
/// no others are.
pub proof fn law_compatible(p: Primitive, q: Primitive)
    ensures
        compatible(primitive_id(p), primitive_id(q)) <==> (p == Primitive::U64 || p
            == Primitive::I64) && (q == Primitive::U64 || q == Primitive::I64),
{
    law_primitive_ids(p, Primitive::U64);
    law_primitive_ids(p, Primitive::I64);
    law_primitive_ids(q, Primitive::U64);
    law_primitive_ids(q, Primitive::I64);
}

impl TypeId {
    pub fn unit() -> (r: TypeId)
        ensures
            r == primitive_id(Primitive::Unit),
            r == TypeId(0),
    {
        proof {
            law_unit_id();
        }
        TypeId::from_primitive(Primitive::Unit)
    }

    pub fn i64() -> (r: TypeId)
        ensures
            r == primitive_id(Primitive::I64),
    {
        TypeId::from_primitive(Primitive::I64)
    }

    pub fn u64() -> (r: TypeId)
        ensures
            r == primitive_id(Primitive::U64),
    {
        TypeId::from_primitive(Primitive::U64)
    }

    pub fn char() -> (r: TypeId)
        ensures
            r == primitive_id(Primitive::Char),
    {
        TypeId::from_primitive(Primitive::Char)
    }

    pub fn char_ptr() -> (r: TypeId)
        ensures
            r == pointer_id(primitive_id(Primitive::Char)),
    {
        TypeId::char().to_ptr_type()
    }

    pub fn bool() -> (r: TypeId)
        ensures
            r == primitive_id(Primitive::Bool),
    {
        TypeId::from_primitive(Primitive::Bool)
    }

    /// If the type is not concretely decided, like that of an integer constant, it can be
    /// switched to another compatible type depending on the context.
    pub fn compatible_with(&self, other: TypeId) -> (r: bool)
        ensures
            r == compatible(*self, other),
    {
        let t_u64 = TypeId::u64();
        let t_i64 = TypeId::i64();
        (*self == t_u64 || *self == t_i64) && (other == t_u64 || other == t_i64)
    }

    pub fn from_parsed(typ: &ParsedType) -> (r: TypeId)
        ensures
            r == type_id(typ@),
        decreases typ,
    {
        match typ {
            ParsedType::Primitive(p) => TypeId::from_primitive(*p),
            ParsedType::Pointer(value_type) => TypeId::from_parsed(value_type).to_ptr_type(),
            ParsedType::Struct(qualifier) => TypeId::from_path(qualifier.as_str()),
        }
    }

    pub fn from_primitive(primitive: Primitive) -> (r: TypeId)
        ensures
            r == primitive_id(primitive),
    {
        TypeId(fx_word(primitive.index()))
    }

    /// The identity of the struct with a given path.
    pub fn from_path(path: &str) -> (r: TypeId)
        ensures
            r == struct_id(path@),
    {
        TypeId(fx_text(path))
    }

    pub fn to_ptr_type(self) -> (r: TypeId)
        ensures
            r == pointer_id(self),
    {
        TypeId(fx_pair(self.0, PTR_HASH_VAL))
    }
}

/// The hash under which a function path is known.
pub fn hash_path(path: &str) -> (r: u64)
    ensures
        r == path_hash(path@),
{
    fx_text(path)
}

/// A field of a struct: its name, type, offset and place.
pub type Field = (String, TypeId, u64, Span);

pub enum TypeKind {
    Struct { qualifier: String, fields: Vec<Field> },
    Pointer(TypeId),
    Primitive(Primitive),
}

pub struct TypeInfo {
    pub size: u64,
    pub kind: TypeKind,
}

/// What a [`TypeKind`] says.
#[verifier::ext_equal]
pub enum TypeKindV {
    Struct { qualifier: Seq<char>, fields: Seq<(Seq<char>, TypeId, u64, Span)> },
    Pointer(TypeId),
    Primitive(Primitive),
}

/// What a [`TypeInfo`] says.
#[verifier::ext_equal]
pub struct TypeInfoV {
    pub size: u64,
    pub kind: TypeKindV,
}

pub open spec fn layout_views(v: Seq<Field>) -> Seq<(Seq<char>, TypeId, u64, Span)> {
    v.map_values(|f: Field| (f.0@, f.1, f.2, f.3))
}

impl View for TypeInfo {
    type V = TypeInfoV;

    open spec fn view(&self) -> TypeInfoV {
        TypeInfoV {
            size: self.size,
            kind: match self.kind {
                TypeKind::Struct { qualifier, fields } => TypeKindV::Struct {
                    qualifier: qualifier@,
                    fields: layout_views(fields@),
                },
                TypeKind::Pointer(t) => TypeKindV::Pointer(t),
                TypeKind::Primitive(p) => TypeKindV::Primitive(p),
            },
        }
    }
}

impl TypeInfoV {
    pub open spec fn sign(self) -> Option<Sign> {
        match self.kind {
            TypeKindV::Primitive(p) => primitive_sign(p),
            _ => None,
        }
    }

    pub open spec fn pointee(self) -> Option<TypeId> {
        match self.kind {
            TypeKindV::Pointer(t) => Some(t),
            _ => None,
        }
    }
}

impl TypeInfo {
    pub fn sign(&self) -> (r: Option<Sign>)
        ensures
            r == self@.sign(),
    {
        match &self.kind {
            TypeKind::Primitive(primitive) => primitive.sign(),
            _ => None,
        }
    }

    pub fn is_ptr(&self) -> (r: bool)
        ensures
            r == (self@.pointee() is Some),
    {
        match &self.kind {
            TypeKind::Pointer(_) => true,
            _ => false,
        }
    }

    pub fn deref_type(&self) -> (r: Option<TypeId>)
        ensures
            r == self@.pointee(),
    {
        match &self.kind {
            TypeKind::Pointer(t) => Some(*t),
            _ => None,
        }
    }
}

/// What is known of each type, by the number that identifies it.
pub type TypesV = Map<u64, TypeInfoV>;

pub struct TypeMap {
    map: HashMap<u64, TypeInfo>,
}

impl View for TypeMap {
    type V = TypesV;

    closed spec fn view(&self) -> TypesV {
        self.map@.map_values(|i: TypeInfo| i@)
    }
}

/// The pointer type to `t` is known.
pub open spec fn with_pointer(types: TypesV, t: TypeId) -> TypesV {
    if types.contains_key(pointer_id(t).0) {
        types
    } else {
        types.insert(pointer_id(t).0, TypeInfoV { size: 8, kind: TypeKindV::Pointer(t) })
    }
}

/// The position of the first field with a given name.
pub open spec fn field_index(fields: Seq<(Seq<char>, TypeId, u64, Span)>, name: Seq<char>) -> int
    decreases fields.len(),
{
    if fields.len() == 0 {
        0
    } else if fields[0].0 == name {
        0
    } else {
        1 + field_index(fields.drop_first(), name)
    }
}

/// The first field with a given name.
pub open spec fn field_named(fields: Seq<(Seq<char>, TypeId, u64, Span)>, name: Seq<char>) -> Option<
    (Seq<char>, TypeId, u64, Span),
> {
    let i = field_index(fields, name);
    if i < fields.len() {
        Some(fields[i])
    } else {
        None
    }
}

/// The field of a struct with a given name; `None` if the type is unknown or no struct.
pub open spec fn member_of(types: TypesV, t: TypeId, name: Seq<char>) -> Option<
    (Seq<char>, TypeId, u64, Span),
> {
    if types.contains_key(t.0) {
        match types[t.0].kind {
            TypeKindV::Struct { fields, .. } => field_named(fields, name),
            _ => None,
        }
    } else {
        None
    }
}

proof fn lemma_field_index(
    fields: Seq<(Seq<char>, TypeId, u64, Span)>,
    name: Seq<char>,
    k: int,
)
    requires
        0 <= k <= fields.len(),
        forall|i: int| 0 <= i < k ==> (#[trigger] fields[i]).0 != name,
    ensures
        k == fields.len() || fields[k].0 == name ==> field_index(fields, name) == k,
    decreases k,
{
    if k > 0 {
        let rest = fields.drop_first();
        assert(fields[0].0 != name);
        assert forall|i: int| 0 <= i < k - 1 implies (#[trigger] rest[i]).0 != name by {
            assert(rest[i] == fields[i + 1]);
        }
        if k < fields.len() {
            assert(rest[k - 1] == fields[k]);
        }
        lemma_field_index(rest, name, k - 1);
    }
}

/// Whether there is a field with a given name.
pub fn has_field(fields: &Vec<Field>, name: &str) -> (r: bool)
    ensures
        r == (field_named(layout_views(fields@), name@) is Some),
{
    let ghost views = layout_views(fields@);
    let mut i: usize = 0;
    while i < fields.len()
        invariant
            i <= fields.len(),
            views == layout_views(fields@),
            forall|j: int| 0 <= j < i ==> (#[trigger] views[j]).0 != name@,
        decreases fields.len() - i,
    {
        if text::str_eq(fields[i].0.as_str(), name) {
            proof {
                lemma_field_index(views, name@, i as int);
            }
            return true;
        }
        i = i + 1;
    }
    proof {
        lemma_field_index(views, name@, i as int);
    }
    false
}

/// A copy of a list of fields.
pub fn copy_fields(fields: &Vec<Field>) -> (r: Vec<Field>)
    ensures
        layout_views(r@) == layout_views(fields@),
{
    let mut r: Vec<Field> = Vec::new();
    let mut i: usize = 0;
    while i < fields.len()
        invariant
            i <= fields.len(),
            r@.len() == i,
            forall|j: int|
                0 <= j < i ==> (#[trigger] r@[j]).0@ == fields@[j].0@ && r@[j].1 == fields@[j].1
                    && r@[j].2 == fields@[j].2 && r@[j].3 == fields@[j].3,
        decreases fields.len() - i,
    {
        let f = &fields[i];
        r.push((f.0.clone(), f.1, f.2, f.3));
        i = i + 1;
    }
    proof {
        assert(layout_views(r@) =~= layout_views(fields@));
    }
    r
}

/// The name of a type that is reached in at most `steps` steps from pointer to pointee. `None` if
/// a type on the way is unknown, or if the steps do not lead to a type that is no pointer.
pub open spec fn name_within(types: TypesV, t: TypeId, steps: nat) -> Option<Seq<char>>
    decreases steps,
{
    if !types.contains_key(t.0) {
        None
    } else {
        match types[t.0].kind {
            TypeKindV::Struct { qualifier, .. } => Some(qualifier),
            TypeKindV::Primitive(p) => Some(primitive_name(p)),
            TypeKindV::Pointer(value) => if steps == 0 {
                None
            } else {
                match name_within(types, value, (steps - 1) as nat) {
                    Some(name) => Some("*"@ + name),
                    None => None,
                }
            },
        }
    }
}

/// The name of a type. No more steps are needed than there are types: a longer way would come by
/// one of them twice and never end.
pub open spec fn name_of_type(types: TypesV, t: TypeId) -> Option<Seq<char>> {
    name_within(types, t, types.dom().len())
}

impl TypeMap {
    pub fn new() -> (r: TypeMap)
        ensures
            r@ == TypesV::empty(),
            r@.dom().finite(),
    {
        let r = TypeMap { map: HashMap::new() };
        proof {
            assert(r@ =~= TypesV::empty());
        }
        r
    }

    /// What is known of a type, if it is known.
    pub fn find(&self, typeid: TypeId) -> (r: Option<&TypeInfo>)
        ensures
            match r {
                Some(info) => self@.contains_key(typeid.0) && self@[typeid.0] == info@,
                None => !self@.contains_key(typeid.0),
            },
    {
        self.map.get(&typeid.0)
    }

    pub fn get(&self, typeid: TypeId) -> (r: &TypeInfo)
        requires
            self@.contains_key(typeid.0),
        ensures
            r@ == self@[typeid.0],
    {
        self.map.get(&typeid.0).unwrap()
    }

    pub fn insert(&mut self, typeid: TypeId, info: TypeInfo)
        ensures
            final(self)@ == old(self)@.insert(typeid.0, info@),
    {
        self.map.insert(typeid.0, info);
        proof {
            assert(self@ =~= old(self)@.insert(typeid.0, info@));
        }
    }

    /// What is known of a type; what `default` gives if nothing is known yet.
    pub fn get_or_insert_with<F: FnOnce() -> TypeInfo>(
        &mut self,
        typeid: TypeId,
        default: F,
    ) -> (r: &TypeInfo)
        requires
            default.requires(()),
        ensures
            old(self)@.contains_key(typeid.0) ==> final(self)@ == old(self)@,
            !old(self)@.contains_key(typeid.0) ==> exists|info: TypeInfo|
                #[trigger] default.ensures((), info) && final(self)@ == old(self)@.insert(
                    typeid.0,
                    info@,
                ),
            final(self)@.contains_key(typeid.0),
            r@ == final(self)@[typeid.0],
    {
        if self.find(typeid).is_none() {
            let info = default();
            self.insert(typeid, info);
        }
        self.get(typeid)
    }

    /// The type of pointers to `typeid`, which is known from then on.
    pub fn ptr_type_to(&mut self, typeid: TypeId) -> (r: TypeId)
        ensures
            r == pointer_id(typeid),
            final(self)@ == with_pointer(old(self)@, typeid),
    {
        let ptr_typeid = typeid.to_ptr_type();
        if self.find(ptr_typeid).is_none() {
            self.insert(ptr_typeid, TypeInfo { size: 8, kind: TypeKind::Pointer(typeid) });
        }
        ptr_typeid
    }

    pub fn size_of(&self, typeid: TypeId) -> (r: u64)
        requires
            self@.contains_key(typeid.0),
        ensures
            r == self@[typeid.0].size,
    {
        self.get(typeid).size
    }

    /// The type and the offset of the member `member`.
    pub fn find_member(&self, typeid: TypeId, member: &str) -> (r: Option<(TypeId, u64)>)
        ensures
            r == match member_of(self@, typeid, member@) {
                Some(f) => Some((f.1, f.2)),
                None => None,
            },
    {
        if let Some(info) = self.find(typeid) {
            if let TypeKind::Struct { fields, .. } = &info.kind {
                let ghost views = layout_views(fields@);
                let mut i: usize = 0;
                while i < fields.len()
                    invariant
                        i <= fields.len(),
                        views == layout_views(fields@),
                        member_of(self@, typeid, member@) == field_named(views, member@),
                        forall|j: int| 0 <= j < i ==> (#[trigger] views[j]).0 != member@,
                    decreases fields.len() - i,
                {
                    if text::str_eq(fields[i].0.as_str(), member) {
                        proof {
                            lemma_field_index(views, member@, i as int);
                        }
                        return Some((fields[i].1, fields[i].2));
                    }
                    i = i + 1;
                }
                proof {
                    lemma_field_index(views, member@, i as int);
                }
            }
        }
        None
    }

    pub fn offset_of_member(&self, typeid: TypeId, member: &str) -> (r: Option<u64>)
        ensures
            r == match member_of(self@, typeid, member@) {
                Some(f) => Some(f.2),
                None => None,
            },
    {
        match self.find_member(typeid, member) {
            Some((_, offset)) => Some(offset),
            None => None,
        }
    }

    pub fn display(&self, typeid: TypeId) -> (r: NameDisplay<'_>)
        ensures
            r.types() == self@,
            r.typeid() == typeid,
    {
        NameDisplay { types: self, typeid }
    }

    /// The name of a type, if it has one.
    pub fn try_name(&self, typeid: TypeId) -> (r: Option<String>)
        ensures
            match r {
                Some(name) => name_of_type(self@, typeid) == Some(name@),
                None => name_of_type(self@, typeid) is None,
            },
    {
        let steps = self.map.len();
        proof {
            assert(self@.dom() =~= self.map@.dom());
        }
        self.name_within(typeid, steps)
    }

    fn name_within(&self, typeid: TypeId, steps: usize) -> (r: Option<String>)
        ensures
            match r {
                Some(name) => name_within(self@, typeid, steps as nat) == Some(name@),
                None => name_within(self@, typeid, steps as nat) is None,
            },
        decreases steps,
    {
        match self.find(typeid) {
            None => None,
            Some(info) => match &info.kind {
                TypeKind::Struct { qualifier, .. } => Some(qualifier.clone()),
                TypeKind::Primitive(p) => Some(p.name().to_owned()),
                TypeKind::Pointer(value) => if steps == 0 {
                    None
                } else {
                    match self.name_within(*value, steps - 1) {
                        Some(name) => Some(text::join2("*", name.as_str())),
                        None => None,
                    }
                },
            },
        }
    }
}

/// Shows the name of a type.
pub struct NameDisplay<'t> {
    types: &'t TypeMap,
    typeid: TypeId,
}

impl<'t> NameDisplay<'t> {
    pub closed spec fn types(self) -> TypesV {
        self.types@
    }

    pub closed spec fn typeid(self) -> TypeId {
        self.typeid
    }

    pub fn show(&self) -> (r: String)
        requires
            name_of_type(self.types(), self.typeid()) is Some,
        ensures
            name_of_type(self.types(), self.typeid()) == Some(r@),
    {
        self.types.try_name(self.typeid).unwrap()
    }
}

} // verus!
