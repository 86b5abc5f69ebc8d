//! The schema surface the core consumes.
//!
//! A protocol schema declares channels with their requests, events and
//! legacy send/recv/error blocks, plus messages, enums, services and
//! type definitions. The schema compiler that produces these structures
//! and the code generated from them live outside the core; the core
//! fixes only this data model, the field types, and the mapping of field
//! types to target-language type names.

use vstd::prelude::*;

use crate::strutil::str_eq;

verus! {

/// A parsed schema document.
#[derive(Debug, Clone, Default)]
pub struct ParsedSchema {
    pub protocol: Option<Protocol>,
    pub imports: Vec<Import>,
    pub messages: Vec<Message>,
    pub enums: Vec<Enum>,
    pub typedefs: Vec<TypeDef>,
}

/// An import of another schema document.
#[derive(Debug, Clone)]
pub struct Import {
    pub path: String,
}

/// A protocol declaration: name, version, and its channels, services,
/// messages and enums.
#[derive(Debug, Clone)]
pub struct Protocol {
    pub name: String,
    pub version: String,
    pub namespace: Option<String>,
    pub description: Option<String>,
    pub services: Vec<Service>,
    pub messages: Vec<Message>,
    pub enums: Vec<Enum>,
    pub channels: Vec<Channel>,
}

/// Which peer opens a channel's stream.
#[derive(Debug, Clone, Copy, PartialEq, Eq, Structural)]
pub enum ChannelFrom {
    Client,
    Server,
    Either,
}

/// How long a channel is meant to live; informational only.
#[derive(Debug, Clone, Copy, PartialEq, Eq, Structural)]
pub enum ChannelLifetime {
    Transient,
    Persistent,
}

/// A named message shape inside a channel declaration.
#[derive(Debug, Clone)]
pub struct ChannelMessage {
    pub name: String,
    pub fields: Vec<Field>,
}

/// A request declaration inside a channel, with its response shape.
#[derive(Debug, Clone)]
pub struct ChannelRequest {
    pub name: String,
    pub fields: Vec<Field>,
    pub returns: Option<ChannelMessage>,
}

/// An event declaration inside a channel.
#[derive(Debug, Clone)]
pub struct ChannelEvent {
    pub name: String,
    pub fields: Vec<Field>,
}

/// A channel declaration: who opens it, how long it lives, and the
/// requests and events it carries. The send/recv/error blocks are the
/// older declaration style, kept for schemas that still use it.
#[derive(Debug, Clone)]
pub struct Channel {
    pub name: String,
    pub from: ChannelFrom,
    pub lifetime: ChannelLifetime,
    pub requests: Vec<ChannelRequest>,
    pub events: Vec<ChannelEvent>,
    pub send: Option<ChannelMessage>,
    pub recv: Option<ChannelMessage>,
    pub error: Option<ChannelMessage>,
}

/// A service declaration with its methods and streams.
#[derive(Debug, Clone)]
pub struct Service {
    pub name: String,
    pub description: Option<String>,
    pub methods: Vec<Method>,
    pub streams: Vec<Stream>,
}

/// One request/response method of a service.
#[derive(Debug, Clone)]
pub struct Method {
    pub name: String,
    pub description: Option<String>,
    pub request: Option<MethodMessage>,
    pub response: Option<MethodMessage>,
}

/// The inline message shape of a method's request or response.
#[derive(Debug, Clone)]
pub struct MethodMessage {
    pub fields: Vec<Field>,
}

/// A streaming endpoint of a service.
#[derive(Debug, Clone)]
pub struct Stream {
    pub name: String,
    pub request: Option<MethodMessage>,
    pub response: Option<MethodMessage>,
}

/// A named message (struct) declaration.
#[derive(Debug, Clone)]
pub struct Message {
    pub name: String,
    pub description: Option<String>,
    pub fields: Vec<Field>,
}

/// One field of a message: its name, its type as declared, and its
/// constraints.
#[derive(Debug, Clone)]
pub struct Field {
    pub name: String,
    pub field_type_str: String,
    pub required: bool,
    pub default_str: Option<String>,
    pub min: Option<i64>,
    pub max: Option<i64>,
    pub min_length: Option<usize>,
    pub max_length: Option<usize>,
    pub pattern: Option<String>,
    pub description: Option<String>,
}

/// A field's type.
#[derive(Debug)]
pub enum FieldType {
    String,
    Int,
    Float,
    Bool,
    Json,
    Array(Box<FieldType>),
    Dict(Box<FieldType>, Box<FieldType>),
    Enum(Vec<String>),
    Object,
    Custom(String),
}

/// An enum declaration.
#[derive(Debug, Clone)]
pub struct Enum {
    pub name: String,
    pub values: Vec<String>,
}

/// A named type definition mapping a schema type to target-language
/// types.
#[derive(Debug, Clone)]
pub struct TypeDef {
    pub name: String,
    pub base_type: String,
    pub rust_type: Option<String>,
    pub typescript_type: Option<String>,
    pub format: Option<String>,
    pub pattern: Option<String>,
}

/// The value constraints declared on a field.
#[derive(Debug, Clone, Default)]
pub struct Constraints {
    pub min: Option<i64>,
    pub max: Option<i64>,
    pub min_length: Option<usize>,
    pub max_length: Option<usize>,
    pub pattern: Option<String>,
}

impl Field {
    /// The field's type, parsed from its declared type string.
    pub fn field_type(&self) -> (r: FieldType)
        ensures
            field_type_of(self.field_type_str@, r),
    {
        self.parse_field_type(self.field_type_str.as_str())
    }

    /// Parses a declared type string: the six primitive names map to
    /// their types, and every other name is a reference to a user type.
    pub fn parse_field_type(&self, type_str: &str) -> (r: FieldType)
        ensures
            field_type_of(type_str@, r),
    {
        proof {
            reveal_strlit("string");
            reveal_strlit("int");
            reveal_strlit("float");
            reveal_strlit("bool");
            reveal_strlit("json");
            reveal_strlit("object");
        }
        if str_eq(type_str, "string") {
            FieldType::String
        } else if str_eq(type_str, "int") {
            FieldType::Int
        } else if str_eq(type_str, "float") {
            FieldType::Float
        } else if str_eq(type_str, "bool") {
            FieldType::Bool
        } else if str_eq(type_str, "json") {
            FieldType::Json
        } else if str_eq(type_str, "object") {
            FieldType::Object
        } else {
            FieldType::Custom(type_str.to_owned())
        }
    }

    /// The constraints declared on the field, gathered into one value.
    pub fn constraints(&self) -> (r: Constraints)
        ensures
            r.min == self.min,
            r.max == self.max,
            r.min_length == self.min_length,
            r.max_length == self.max_length,
            r.pattern is Some <==> self.pattern is Some,
            r.pattern is Some ==> r.pattern->0@ == self.pattern->0@,
    {
        let pattern = match &self.pattern {
            Some(p) => Some(p.clone()),
            None => None,
        };
        Constraints {
            min: self.min,
            max: self.max,
            min_length: self.min_length,
            max_length: self.max_length,
            pattern,
        }
    }
}

/// True when a parsed field type is the one the declared type string
/// names: each primitive name maps to its type, and any other name to a
/// reference to the user type of that name.
pub open spec fn field_type_of(s: Seq<char>, r: FieldType) -> bool {
    if s == "string"@ {
        r is String
    } else if s == "int"@ {
        r is Int
    } else if s == "float"@ {
        r is Float
    } else if s == "bool"@ {
        r is Bool
    } else if s == "json"@ {
        r is Json
    } else if s == "object"@ {
        r is Object
    } else {
        r is Custom && r->Custom_0@ == s
    }
}

/// The mathematical model of one type registry entry.
#[verifier::ext_equal]
pub ghost struct TypeEntryView {
    pub name: Seq<char>,
    pub rust_type: Seq<char>,
    pub typescript_type: Seq<char>,
}

/// One registered user type: its schema name and its target-language
/// type names.
#[derive(Debug, Clone)]
pub struct TypeEntry {
    pub name: String,
    pub rust_type: String,
    pub typescript_type: String,
}

impl View for TypeEntry {
    type V = TypeEntryView;

    open spec fn view(&self) -> TypeEntryView {
        TypeEntryView {
            name: self.name@,
            rust_type: self.rust_type@,
            typescript_type: self.typescript_type@,
        }
    }
}

impl DeepView for TypeEntry {
    type V = TypeEntryView;

    open spec fn deep_view(&self) -> TypeEntryView {
        self.view()
    }
}

/// True when some entry is registered under the given name.
pub open spec fn has_type(s: Seq<TypeEntryView>, name: Seq<char>) -> bool {
    exists|i: int| 0 <= i < s.len() && s[i].name == name
}

/// The entry registered under the given name.
pub open spec fn type_at(s: Seq<TypeEntryView>, name: Seq<char>) -> TypeEntryView
    recommends
        has_type(s, name),
{
    s[choose|i: int| 0 <= i < s.len() && s[i].name == name]
}

/// The registry of user-defined types the generator resolves references
/// against.
#[derive(Debug, Clone, Default)]
pub struct TypeRegistry {
    pub entries: Vec<TypeEntry>,
}

impl TypeRegistry {
    /// Well-formedness: each type name is registered once.
    pub open spec fn wf(&self) -> bool {
        forall|i: int, j: int|
            0 <= i < j < self.entries.deep_view().len() ==> self.entries.deep_view()[i].name
                != self.entries.deep_view()[j].name
    }

    /// An empty registry.
    pub fn new() -> (r: TypeRegistry)
        ensures
            r.wf(),
            r.entries.deep_view() =~= Seq::<TypeEntryView>::empty(),
    {
        TypeRegistry { entries: Vec::new() }
    }

    /// Registers a user type's target-language names; a name already
    /// registered keeps its first entry.
    pub fn register(&mut self, name: &str, rust_type: &str, typescript_type: &str)
        requires
            old(self).wf(),
        ensures
            final(self).wf(),
            has_type(final(self).entries.deep_view(), name@),
            forall|n: Seq<char>|
                n != name@ ==> (#[trigger] has_type(final(self).entries.deep_view(), n)
                    <==> has_type(old(self).entries.deep_view(), n)),
            forall|n: Seq<char>|
                n != name@ && has_type(old(self).entries.deep_view(), n) ==> #[trigger] type_at(
                    final(self).entries.deep_view(),
                    n,
                ) == type_at(old(self).entries.deep_view(), n),
            !has_type(old(self).entries.deep_view(), name@) ==> type_at(
                final(self).entries.deep_view(),
                name@,
            ) == (TypeEntryView {
                name: name@,
                rust_type: rust_type@,
                typescript_type: typescript_type@,
            }),
    {
        match self.find_type(name) {
            Some(_) => {
            },
            None => {
                let ghost o = self.entries.deep_view();
                let entry = TypeEntry {
                    name: name.to_owned(),
                    rust_type: rust_type.to_owned(),
                    typescript_type: typescript_type.to_owned(),
                };
                let ghost ev = entry@;
                self.entries.push(entry);
                proof {
                    let t = self.entries.deep_view();
                    assert(t =~~= o.push(ev));
                    assert(t[t.len() - 1] == ev);
                    assert(has_type(t, name@));
                    assert forall|i: int, j: int| 0 <= i < j < t.len() implies t[i].name
                        != t[j].name by {
                        if j == t.len() - 1 {
                            if t[i].name == name@ {
                                assert(has_type(o, name@));
                            }
                        }
                    }
                    assert forall|n: Seq<char>|
                        n != name@ && #[trigger] has_type(t, n) implies has_type(o, n) by {
                        let i = choose|i: int| 0 <= i < t.len() && t[i].name == n;
                        assert(i < t.len() - 1);
                        assert(o[i].name == n);
                    }
                    assert forall|n: Seq<char>|
                        n != name@ && #[trigger] has_type(o, n) implies has_type(t, n) by {
                        let i = choose|i: int| 0 <= i < o.len() && o[i].name == n;
                        assert(t[i].name == n);
                    }
                    assert forall|n: Seq<char>|
                        n != name@ && has_type(o, n) implies #[trigger] type_at(t, n) == type_at(
                        o,
                        n,
                    ) by {
                        let i = choose|i: int| 0 <= i < o.len() && o[i].name == n;
                        assert(t[i].name == n);
                        let i2 = choose|i2: int| 0 <= i2 < t.len() && t[i2].name == n;
                        if i2 == t.len() - 1 {
                            assert(false);
                        }
                        assert(o[i2].name == n);
                        let io = choose|io: int| 0 <= io < o.len() && o[io].name == n;
                        assert(o[io].name == o[i2].name);
                        assert(io == i2);
                    }
                    let j = choose|j: int| 0 <= j < t.len() && t[j].name == name@;
                    if j != t.len() - 1 {
                        assert(o[j].name == name@);
                        assert(has_type(o, name@));
                    }
                }
            },
        }
    }

    /// Finds the position of the entry registered under a name.
    fn find_type(&self, name: &str) -> (r: Option<usize>)
        requires
            self.wf(),
        ensures
            r is Some <==> has_type(self.entries.deep_view(), name@),
            r is Some ==> 0 <= r->0 < self.entries.deep_view().len()
                && self.entries.deep_view()[r->0 as int] == type_at(
                self.entries.deep_view(),
                name@,
            ),
    {
        let ghost s = self.entries.deep_view();
        let n = self.entries.len();
        let mut k: usize = 0;
        while k < n
            invariant
                self.wf(),
                s == self.entries.deep_view(),
                n == s.len(),
                0 <= k <= n,
                forall|i: int| 0 <= i < k ==> (#[trigger] s[i]).name != name@,
            decreases n - k,
        {
            proof {
                assert(s[k as int] == self.entries@[k as int]@);
            }
            if str_eq(self.entries[k].name.as_str(), name) {
                proof {
                    assert(has_type(s, name@));
                    let j = choose|j: int| 0 <= j < s.len() && s[j].name == name@;
                    assert(j == k as int);
                }
                return Some(k);
            }
            k = k + 1;
        }
        proof {
            if has_type(s, name@) {
                let i = choose|i: int| 0 <= i < s.len() && s[i].name == name@;
                assert(s[i].name != name@);
            }
        }
        None
    }

    /// The Rust type name registered for a user type, if any.
    pub fn get_rust_type(&self, name: &str) -> (r: Option<String>)
        requires
            self.wf(),
        ensures
            r is Some <==> has_type(self.entries.deep_view(), name@),
            r is Some ==> r->0@ == type_at(self.entries.deep_view(), name@).rust_type,
    {
        match self.find_type(name) {
            Some(k) => Some(self.entries[k].rust_type.clone()),
            None => None,
        }
    }

    /// The TypeScript type name registered for a user type, if any.
    pub fn get_typescript_type(&self, name: &str) -> (r: Option<String>)
        requires
            self.wf(),
        ensures
            r is Some <==> has_type(self.entries.deep_view(), name@),
            r is Some ==> r->0@ == type_at(self.entries.deep_view(), name@).typescript_type,
    {
        match self.find_type(name) {
            Some(k) => Some(self.entries[k].typescript_type.clone()),
            None => None,
        }
    }
}

/// The Rust type name of a field type, resolved against a registry.
pub open spec fn rust_type_chars(t: FieldType, reg: Seq<TypeEntryView>) -> Seq<char>
    decreases t,
{
    match t {
        FieldType::String => "String"@,
        FieldType::Int => "i64"@,
        FieldType::Float => "f64"@,
        FieldType::Bool => "bool"@,
        FieldType::Json => "serde_json::Value"@,
        FieldType::Object => "serde_json::Value"@,
        FieldType::Array(inner) => "Vec<"@ + rust_type_chars(*inner, reg) + ">"@,
        FieldType::Dict(key, value) => "HashMap<"@ + rust_type_chars(*key, reg) + ", "@
            + rust_type_chars(*value, reg) + ">"@,
        FieldType::Enum(_) => "String"@,
        FieldType::Custom(name) => if has_type(reg, name@) {
            type_at(reg, name@).rust_type
        } else {
            name@
        },
    }
}

/// The TypeScript enum type of a list of values: the quoted values
/// joined as a union.
pub open spec fn ts_enum_chars(vs: Seq<Seq<char>>) -> Seq<char>
    decreases vs.len(),
{
    if vs.len() == 0 {
        Seq::empty()
    } else if vs.len() == 1 {
        "'"@ + vs[0] + "'"@
    } else {
        ts_enum_chars(vs.drop_last()) + " | "@ + "'"@ + vs.last() + "'"@
    }
}

/// The TypeScript type name of a field type, resolved against a
/// registry.
pub open spec fn typescript_type_chars(t: FieldType, reg: Seq<TypeEntryView>) -> Seq<char>
    decreases t,
{
    match t {
        FieldType::String => "string"@,
        FieldType::Int => "number"@,
        FieldType::Float => "number"@,
        FieldType::Bool => "boolean"@,
        FieldType::Json => "any"@,
        FieldType::Object => "any"@,
        FieldType::Array(inner) => typescript_type_chars(*inner, reg) + "[]"@,
        FieldType::Dict(key, value) => "Record<string, "@ + typescript_type_chars(*value, reg)
            + ">"@,
        FieldType::Enum(values) => ts_enum_chars(values.deep_view()),
        FieldType::Custom(name) => if has_type(reg, name@) {
            type_at(reg, name@).typescript_type
        } else {
            name@
        },
    }
}

impl FieldType {
    /// The Rust type name this field type maps to.
    pub fn to_rust_type(&self, type_registry: &TypeRegistry) -> (r: String)
        requires
            type_registry.wf(),
        ensures
            r@ == rust_type_chars(*self, type_registry.entries.deep_view()),
        decreases *self,
    {
        match self {
            FieldType::String => String::from_str("String"),
            FieldType::Int => String::from_str("i64"),
            FieldType::Float => String::from_str("f64"),
            FieldType::Bool => String::from_str("bool"),
            FieldType::Json => String::from_str("serde_json::Value"),
            FieldType::Object => String::from_str("serde_json::Value"),
            FieldType::Array(inner) => {
                let inner_type = inner.to_rust_type(type_registry);
                String::from_str("Vec<").concat(inner_type.as_str()).concat(">")
            },
            FieldType::Dict(key, value) => {
                let key_type = key.to_rust_type(type_registry);
                let value_type = value.to_rust_type(type_registry);
                String::from_str("HashMap<").concat(key_type.as_str()).concat(", ").concat(
                    value_type.as_str(),
                ).concat(">")
            },
            FieldType::Enum(_) => String::from_str("String"),
            FieldType::Custom(name) => {
                match type_registry.get_rust_type(name.as_str()) {
                    Some(t) => t,
                    None => name.clone(),
                }
            },
        }
    }

    /// The TypeScript type name this field type maps to.
    pub fn to_typescript_type(&self, type_registry: &TypeRegistry) -> (r: String)
        requires
            type_registry.wf(),
        ensures
            r@ == typescript_type_chars(*self, type_registry.entries.deep_view()),
        decreases *self,
    {
        match self {
            FieldType::String => String::from_str("string"),
            FieldType::Int => String::from_str("number"),
            FieldType::Float => String::from_str("number"),
            FieldType::Bool => String::from_str("boolean"),
            FieldType::Json => String::from_str("any"),
            FieldType::Object => String::from_str("any"),
            FieldType::Array(inner) => {
                let inner_type = inner.to_typescript_type(type_registry);
                inner_type.concat("[]")
            },
            FieldType::Dict(_key, value) => {
                let value_type = value.to_typescript_type(type_registry);
                String::from_str("Record<string, ").concat(value_type.as_str()).concat(">")
            },
            FieldType::Enum(values) => {
                let ghost vs = values.deep_view();
                let n = values.len();
                let mut acc = String::new();
                let mut k: usize = 0;
                while k < n
                    invariant
                        vs == values.deep_view(),
                        n == vs.len(),
                        0 <= k <= n,
                        acc@ =~= ts_enum_chars(vs.take(k as int)),
                    decreases n - k,
                {
                    proof {
                        assert(vs[k as int] == values@[k as int]@);
                        assert(vs.take(k as int + 1).drop_last() =~= vs.take(k as int));
                        assert(vs.take(k as int + 1).last() == vs[k as int]);
                    }
                    if k > 0 {
                        acc.append(" | ");
                    }
                    acc.append("'");
                    acc.append(values[k].as_str());
                    acc.append("'");
                    k = k + 1;
                }
                proof {
                    assert(vs.take(n as int) =~= vs);
                }
                acc
            },
            FieldType::Custom(name) => {
                match type_registry.get_typescript_type(name.as_str()) {
                    Some(t) => t,
                    None => name.clone(),
                }
            },
        }
    }
}

} // verus!
