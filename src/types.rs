//! Resolved types of the checker and the registry of struct and enum
//! definitions.

use vstd::prelude::*;
use crate::text::{copy_str, push_str, str_eq, strs};

verus! {

/// Stable handle of a resolved symbol.
#[derive(Clone, Copy, Debug, PartialEq, Eq, Structural)]
pub struct SymbolId(pub u32);

/// A type after resolution.
#[derive(Debug)]
pub enum ResolvedType {
    Int,
    Float,
    Bool,
    String,
    Char,
    Bytes,
    DateTime,
    /// The type of the `none` literal.
    NoneType,
    /// A named type with its resolved symbol and type arguments.
    Named { name: String, id: SymbolId, args: Vec<ResolvedType> },
    Optional(Box<ResolvedType>),
    List(Box<ResolvedType>),
    SetOf(Box<ResolvedType>),
    Union(Vec<ResolvedType>),
    Tuple(Vec<ResolvedType>),
    Function { params: Vec<ResolvedType>, ret: Box<ResolvedType> },
    Struct(Vec<(String, ResolvedType)>),
    /// Placeholder while inferring.
    Unknown,
    /// Error-recovery sentinel, compatible with every type.
    Error,
}

/// The texts of the first `n` types of `v`, separated by `sep`.
pub open spec fn joined(v: Vec<ResolvedType>, n: int, sep: Seq<char>) -> Seq<char>
    decreases v, n,
{
    if n <= 0 || n > v.len() {
        Seq::empty()
    } else if n == 1 {
        type_text(v[0])
    } else {
        joined(v, n - 1, sep) + sep + type_text(v[n - 1])
    }
}

/// The texts "name: type" of the first `n` fields, separated by ", ".
pub open spec fn fields_joined(v: Vec<(String, ResolvedType)>, n: int) -> Seq<char>
    decreases v, n,
{
    if n <= 0 || n > v.len() {
        Seq::empty()
    } else if n == 1 {
        v[0].0@ + ": "@ + type_text(v[0].1)
    } else {
        fields_joined(v, n - 1) + ", "@ + v[n - 1].0@ + ": "@ + type_text(v[n - 1].1)
    }
}

/// How a type is written: `Int`, `T?`, `T[]`, `Set<T>`, `A | B`, `(A, B)`,
/// `(A) -> R`, `{ a: A }`, `Name<A>`, `?` for unknown, `<error>`.
pub open spec fn type_text(t: ResolvedType) -> Seq<char>
    decreases t,
{
    match t {
        ResolvedType::Int => "Int"@,
        ResolvedType::Float => "Float"@,
        ResolvedType::Bool => "Bool"@,
        ResolvedType::String => "String"@,
        ResolvedType::Char => "Char"@,
        ResolvedType::Bytes => "Bytes"@,
        ResolvedType::DateTime => "DateTime"@,
        ResolvedType::NoneType => "none"@,
        ResolvedType::Named { name, args, .. } => if args.len() == 0 {
            name@
        } else {
            name@ + "<"@ + joined(args, args.len() as int, ", "@) + ">"@
        },
        ResolvedType::Optional(inner) => type_text(*inner) + "?"@,
        ResolvedType::List(inner) => type_text(*inner) + "[]"@,
        ResolvedType::SetOf(inner) => "Set<"@ + type_text(*inner) + ">"@,
        ResolvedType::Union(ts) => joined(ts, ts.len() as int, " | "@),
        ResolvedType::Tuple(ts) => "("@ + joined(ts, ts.len() as int, ", "@) + ")"@,
        ResolvedType::Function { params, ret } => "("@ + joined(params, params.len() as int, ", "@)
            + ") -> "@ + type_text(*ret),
        ResolvedType::Struct(fields) => "{ "@ + fields_joined(fields, fields.len() as int) + " }"@,
        ResolvedType::Unknown => "?"@,
        ResolvedType::Error => "<error>"@,
    }
}

fn join_types(v: &Vec<ResolvedType>, sep: &str) -> (r: String)
    ensures
        r@ == joined(*v, v.len() as int, sep@),
    decreases v,
{
    let mut r = String::new();
    let mut i: usize = 0;
    while i < v.len()
        invariant
            i <= v.len(),
            r@ == joined(*v, i as int, sep@),
        decreases v.len() - i,
    {
        proof {
            assert(decreases_to!(*v => v[i as int]));
        }
        let t = v[i].display();
        if i > 0 {
            push_str(&mut r, sep);
        } else {
            assert(r@ == Seq::<char>::empty());
        }
        push_str(&mut r, t.as_str());
        i = i + 1;
    }
    r
}

fn join_fields(v: &Vec<(String, ResolvedType)>) -> (r: String)
    ensures
        r@ == fields_joined(*v, v.len() as int),
    decreases v,
{
    let mut r = String::new();
    let mut i: usize = 0;
    while i < v.len()
        invariant
            i <= v.len(),
            r@ == fields_joined(*v, i as int),
        decreases v.len() - i,
    {
        proof {
            assert(decreases_to!(*v => v[i as int]));
        }
        let t = v[i].1.display();
        if i > 0 {
            push_str(&mut r, ", ");
        } else {
            assert(r@ == Seq::<char>::empty());
        }
        push_str(&mut r, v[i].0.as_str());
        push_str(&mut r, ": ");
        push_str(&mut r, t.as_str());
        i = i + 1;
    }
    r
}

impl ResolvedType {
    /// Whether this is the error sentinel.
    pub fn is_error(&self) -> (r: bool)
        ensures
            r == (*self is Error),
    {
        match self {
            ResolvedType::Error => true,
            _ => false,
        }
    }

    /// Whether this is an optional type.
    pub fn is_optional(&self) -> (r: bool)
        ensures
            r == (*self is Optional),
    {
        match self {
            ResolvedType::Optional(_) => true,
            _ => false,
        }
    }

    /// How the type is written.
    pub fn display(&self) -> (r: String)
        ensures
            r@ == type_text(*self),
        decreases self,
    {
        match self {
            ResolvedType::Int => copy_str("Int"),
            ResolvedType::Float => copy_str("Float"),
            ResolvedType::Bool => copy_str("Bool"),
            ResolvedType::String => copy_str("String"),
            ResolvedType::Char => copy_str("Char"),
            ResolvedType::Bytes => copy_str("Bytes"),
            ResolvedType::DateTime => copy_str("DateTime"),
            ResolvedType::NoneType => copy_str("none"),
            ResolvedType::Named { name, args, .. } => {
                if args.len() == 0 {
                    name.clone()
                } else {
                    let mut s = name.clone();
                    push_str(&mut s, "<");
                    let inner = join_types(args, ", ");
                    push_str(&mut s, inner.as_str());
                    push_str(&mut s, ">");
                    s
                }
            },
            ResolvedType::Optional(inner) => {
                let mut s = inner.display();
                push_str(&mut s, "?");
                s
            },
            ResolvedType::List(inner) => {
                let mut s = inner.display();
                push_str(&mut s, "[]");
                s
            },
            ResolvedType::SetOf(inner) => {
                let mut s = copy_str("Set<");
                let t = inner.display();
                push_str(&mut s, t.as_str());
                push_str(&mut s, ">");
                s
            },
            ResolvedType::Union(ts) => join_types(ts, " | "),
            ResolvedType::Tuple(ts) => {
                let mut s = copy_str("(");
                let inner = join_types(ts, ", ");
                push_str(&mut s, inner.as_str());
                push_str(&mut s, ")");
                s
            },
            ResolvedType::Function { params, ret } => {
                let mut s = copy_str("(");
                let inner = join_types(params, ", ");
                push_str(&mut s, inner.as_str());
                push_str(&mut s, ") -> ");
                let r = ret.display();
                push_str(&mut s, r.as_str());
                s
            },
            ResolvedType::Struct(fields) => {
                let mut s = copy_str("{ ");
                let inner = join_fields(fields);
                push_str(&mut s, inner.as_str());
                push_str(&mut s, " }");
                s
            },
            ResolvedType::Unknown => copy_str("?"),
            ResolvedType::Error => copy_str("<error>"),
        }
    }
}

/// A struct type: its name and its named fields.
#[derive(Debug)]
pub struct StructDef {
    pub name: String,
    pub fields: Vec<(String, ResolvedType)>,
}

/// An enum type: its name and its ordered variants.
#[derive(Debug)]
pub struct EnumDef {
    pub name: String,
    pub variants: Vec<VariantDef>,
}

/// A variant of an enum; `None` fields for a unit variant.
#[derive(Debug)]
pub struct VariantDef {
    pub name: String,
    pub fields: Option<Vec<(String, ResolvedType)>>,
}

/// The struct and enum definitions, each by its name.
#[derive(Debug)]
pub struct TypeRegistry {
    structs: Vec<StructDef>,
    enums: Vec<EnumDef>,
}

spec fn struct_names_unique(s: Seq<StructDef>) -> bool {
    forall|i: int, j: int| 0 <= i < s.len() && 0 <= j < s.len() && i != j ==> s[i].name@ != s[j].name@
}

spec fn enum_names_unique(s: Seq<EnumDef>) -> bool {
    forall|i: int, j: int| 0 <= i < s.len() && 0 <= j < s.len() && i != j ==> s[i].name@ != s[j].name@
}

/// The definitions of `s` by name.
pub open spec fn struct_map(s: Seq<StructDef>) -> Map<Seq<char>, StructDef> {
    Map::new(
        |n: Seq<char>| exists|i: int| 0 <= i < s.len() && (#[trigger] s[i]).name@ == n,
        |n: Seq<char>| s[choose|i: int| 0 <= i < s.len() && (#[trigger] s[i]).name@ == n],
    )
}

/// The definitions of `s` by name.
pub open spec fn enum_map(s: Seq<EnumDef>) -> Map<Seq<char>, EnumDef> {
    Map::new(
        |n: Seq<char>| exists|i: int| 0 <= i < s.len() && (#[trigger] s[i]).name@ == n,
        |n: Seq<char>| s[choose|i: int| 0 <= i < s.len() && (#[trigger] s[i]).name@ == n],
    )
}

/// The type of the first field named `name` among `fields`.
pub open spec fn first_field(fields: Seq<(String, ResolvedType)>, name: Seq<char>) -> Option<
    ResolvedType,
>
    decreases fields.len(),
{
    if fields.len() == 0 {
        None
    } else if fields[0].0@ == name {
        Some(fields[0].1)
    } else {
        first_field(fields.drop_first(), name)
    }
}

proof fn lemma_struct_map_set(s: Seq<StructDef>, i: int, d: StructDef)
    requires
        struct_names_unique(s),
        0 <= i < s.len(),
        s[i].name@ == d.name@,
    ensures
        struct_names_unique(s.update(i, d)),
        struct_map(s.update(i, d)) == struct_map(s).insert(d.name@, d),
{
    let u = s.update(i, d);
    assert forall|n: Seq<char>| #[trigger] struct_map(u).contains_key(n) == struct_map(s).insert(d.name@, d).contains_key(n) by {
        if struct_map(s).contains_key(n) {
            let k = choose|k: int| 0 <= k < s.len() && (#[trigger] s[k]).name@ == n;
            assert(u[k].name@ == n);
        }
        if struct_map(u).contains_key(n) {
            let k = choose|k: int| 0 <= k < u.len() && (#[trigger] u[k]).name@ == n;
            assert(s[k].name@ == n);
        }
    }
    assert forall|n: Seq<char>| #[trigger] struct_map(u).contains_key(n) implies struct_map(u)[n] == struct_map(s).insert(d.name@, d)[n] by {
        let k = choose|k: int| 0 <= k < u.len() && (#[trigger] u[k]).name@ == n;
        if n != d.name@ {
            let m = choose|m: int| 0 <= m < s.len() && (#[trigger] s[m]).name@ == n;
            assert(k == m);
        }
    }
    assert(struct_map(u) =~= struct_map(s).insert(d.name@, d));
}

proof fn lemma_struct_map_push(s: Seq<StructDef>, d: StructDef)
    requires
        struct_names_unique(s),
        !struct_map(s).contains_key(d.name@),
    ensures
        struct_names_unique(s.push(d)),
        struct_map(s.push(d)) == struct_map(s).insert(d.name@, d),
{
    let u = s.push(d);
    assert forall|a: int, b: int| 0 <= a < u.len() && 0 <= b < u.len() && a != b implies u[a].name@ != u[b].name@ by {
        if a < s.len() && b < s.len() {
        } else if a < s.len() {
            assert(s[a].name@ == u[a].name@);
        } else {
            assert(s[b].name@ == u[b].name@);
        }
    }
    assert forall|n: Seq<char>| #[trigger] struct_map(u).contains_key(n) == struct_map(s).insert(d.name@, d).contains_key(n) by {
        if struct_map(s).contains_key(n) {
            let k = choose|k: int| 0 <= k < s.len() && (#[trigger] s[k]).name@ == n;
            assert(u[k].name@ == n);
        }
        if n == d.name@ {
            assert(u[s.len() as int].name@ == n);
        }
        if struct_map(u).contains_key(n) && n != d.name@ {
            let k = choose|k: int| 0 <= k < u.len() && (#[trigger] u[k]).name@ == n;
            assert(s[k].name@ == n);
        }
    }
    assert forall|n: Seq<char>| #[trigger] struct_map(u).contains_key(n) implies struct_map(u)[n] == struct_map(s).insert(d.name@, d)[n] by {
        let k = choose|k: int| 0 <= k < u.len() && (#[trigger] u[k]).name@ == n;
        if n != d.name@ {
            let m = choose|m: int| 0 <= m < s.len() && (#[trigger] s[m]).name@ == n;
            assert(u[m].name@ == n);
        } else {
            assert(u[s.len() as int].name@ == n);
        }
    }
    assert(struct_map(u) =~= struct_map(s).insert(d.name@, d));
}

proof fn lemma_enum_map_set(s: Seq<EnumDef>, i: int, d: EnumDef)
    requires
        enum_names_unique(s),
        0 <= i < s.len(),
        s[i].name@ == d.name@,
    ensures
        enum_names_unique(s.update(i, d)),
        enum_map(s.update(i, d)) == enum_map(s).insert(d.name@, d),
{
    let u = s.update(i, d);
    assert forall|n: Seq<char>| #[trigger] enum_map(u).contains_key(n) == enum_map(s).insert(d.name@, d).contains_key(n) by {
        if enum_map(s).contains_key(n) {
            let k = choose|k: int| 0 <= k < s.len() && (#[trigger] s[k]).name@ == n;
            assert(u[k].name@ == n);
        }
        if enum_map(u).contains_key(n) {
            let k = choose|k: int| 0 <= k < u.len() && (#[trigger] u[k]).name@ == n;
            assert(s[k].name@ == n);
        }
    }
    assert forall|n: Seq<char>| #[trigger] enum_map(u).contains_key(n) implies enum_map(u)[n] == enum_map(s).insert(d.name@, d)[n] by {
        let k = choose|k: int| 0 <= k < u.len() && (#[trigger] u[k]).name@ == n;
        if n != d.name@ {
            let m = choose|m: int| 0 <= m < s.len() && (#[trigger] s[m]).name@ == n;
            assert(k == m);
        }
    }
    assert(enum_map(u) =~= enum_map(s).insert(d.name@, d));
}

proof fn lemma_enum_map_push(s: Seq<EnumDef>, d: EnumDef)
    requires
        enum_names_unique(s),
        !enum_map(s).contains_key(d.name@),
    ensures
        enum_names_unique(s.push(d)),
        enum_map(s.push(d)) == enum_map(s).insert(d.name@, d),
{
    let u = s.push(d);
    assert forall|a: int, b: int| 0 <= a < u.len() && 0 <= b < u.len() && a != b implies u[a].name@ != u[b].name@ by {
        if a < s.len() && b < s.len() {
        } else if a < s.len() {
            assert(s[a].name@ == u[a].name@);
        } else {
            assert(s[b].name@ == u[b].name@);
        }
    }
    assert forall|n: Seq<char>| #[trigger] enum_map(u).contains_key(n) == enum_map(s).insert(d.name@, d).contains_key(n) by {
        if enum_map(s).contains_key(n) {
            let k = choose|k: int| 0 <= k < s.len() && (#[trigger] s[k]).name@ == n;
            assert(u[k].name@ == n);
        }
        if n == d.name@ {
            assert(u[s.len() as int].name@ == n);
        }
        if enum_map(u).contains_key(n) && n != d.name@ {
            let k = choose|k: int| 0 <= k < u.len() && (#[trigger] u[k]).name@ == n;
            assert(s[k].name@ == n);
        }
    }
    assert forall|n: Seq<char>| #[trigger] enum_map(u).contains_key(n) implies enum_map(u)[n] == enum_map(s).insert(d.name@, d)[n] by {
        let k = choose|k: int| 0 <= k < u.len() && (#[trigger] u[k]).name@ == n;
        if n != d.name@ {
            let m = choose|m: int| 0 <= m < s.len() && (#[trigger] s[m]).name@ == n;
            assert(u[m].name@ == n);
        } else {
            assert(u[s.len() as int].name@ == n);
        }
    }
    assert(enum_map(u) =~= enum_map(s).insert(d.name@, d));
}

impl TypeRegistry {
    /// Names are unique.
    pub closed spec fn wf(&self) -> bool {
        struct_names_unique(self.structs@) && enum_names_unique(self.enums@)
    }

    /// The struct definitions by name.
    pub closed spec fn structs(&self) -> Map<Seq<char>, StructDef> {
        struct_map(self.structs@)
    }

    /// The enum definitions by name.
    pub closed spec fn enums(&self) -> Map<Seq<char>, EnumDef> {
        enum_map(self.enums@)
    }

    /// An empty registry.
    pub fn new() -> (r: TypeRegistry)
        ensures
            r.wf(),
            r.structs() == Map::<Seq<char>, StructDef>::empty(),
            r.enums() == Map::<Seq<char>, EnumDef>::empty(),
    {
        let r = TypeRegistry { structs: Vec::new(), enums: Vec::new() };
        assert(r.structs() =~= Map::<Seq<char>, StructDef>::empty());
        assert(r.enums() =~= Map::<Seq<char>, EnumDef>::empty());
        r
    }

    fn struct_index(&self, name: &str) -> (r: Option<usize>)
        requires
            self.wf(),
        ensures
            r is None <==> !self.structs().contains_key(name@),
            r matches Some(i) ==> i < self.structs@.len() && self.structs@[i as int].name@ == name@
                && self.structs()[name@] == self.structs@[i as int],
    {
        let mut i: usize = 0;
        while i < self.structs.len()
            invariant
                i <= self.structs@.len(),
                struct_names_unique(self.structs@),
                forall|k: int| 0 <= k < i ==> (#[trigger] self.structs@[k]).name@ != name@,
            decreases self.structs@.len() - i,
        {
            if str_eq(self.structs[i].name.as_str(), name) {
                proof {
                    let s = self.structs@;
                    assert(s[i as int].name@ == name@);
                    let k = choose|k: int| 0 <= k < s.len() && (#[trigger] s[k]).name@ == name@;
                    assert(k == i);
                }
                return Some(i);
            }
            i = i + 1;
        }
        None
    }

    fn enum_index(&self, name: &str) -> (r: Option<usize>)
        requires
            self.wf(),
        ensures
            r is None <==> !self.enums().contains_key(name@),
            r matches Some(i) ==> i < self.enums@.len() && self.enums@[i as int].name@ == name@
                && self.enums()[name@] == self.enums@[i as int],
    {
        let mut i: usize = 0;
        while i < self.enums.len()
            invariant
                i <= self.enums@.len(),
                enum_names_unique(self.enums@),
                forall|k: int| 0 <= k < i ==> (#[trigger] self.enums@[k]).name@ != name@,
            decreases self.enums@.len() - i,
        {
            if str_eq(self.enums[i].name.as_str(), name) {
                proof {
                    let s = self.enums@;
                    assert(s[i as int].name@ == name@);
                    let k = choose|k: int| 0 <= k < s.len() && (#[trigger] s[k]).name@ == name@;
                    assert(k == i);
                }
                return Some(i);
            }
            i = i + 1;
        }
        None
    }

    /// Registers a struct type, replacing one of the same name.
    pub fn register_struct(&mut self, name: String, fields: Vec<(String, ResolvedType)>)
        requires
            old(self).wf(),
        ensures
            final(self).wf(),
            final(self).structs() == old(self).structs().insert(
                name@,
                StructDef { name, fields },
            ),
            final(self).enums() == old(self).enums(),
    {
        let found = self.struct_index(name.as_str());
        let d = StructDef { name, fields };
        let ghost s = self.structs@;
        match found {
            Some(i) => {
                proof {
                    lemma_struct_map_set(s, i as int, d);
                }
                self.structs.set(i, d);
            },
            None => {
                proof {
                    lemma_struct_map_push(s, d);
                }
                self.structs.push(d);
            },
        }
    }

    /// Registers an enum type, replacing one of the same name.
    pub fn register_enum(&mut self, name: String, variants: Vec<VariantDef>)
        requires
            old(self).wf(),
        ensures
            final(self).wf(),
            final(self).enums() == old(self).enums().insert(name@, EnumDef { name, variants }),
            final(self).structs() == old(self).structs(),
    {
        let found = self.enum_index(name.as_str());
        let d = EnumDef { name, variants };
        let ghost s = self.enums@;
        match found {
            Some(i) => {
                proof {
                    lemma_enum_map_set(s, i as int, d);
                }
                self.enums.set(i, d);
            },
            None => {
                proof {
                    lemma_enum_map_push(s, d);
                }
                self.enums.push(d);
            },
        }
    }

    /// The struct definition with this name.
    pub fn get_struct(&self, name: &str) -> (r: Option<&StructDef>)
        requires
            self.wf(),
        ensures
            r is None <==> !self.structs().contains_key(name@),
            r matches Some(d) ==> *d == self.structs()[name@],
    {
        match self.struct_index(name) {
            Some(i) => Some(&self.structs[i]),
            None => None,
        }
    }

    /// The enum definition with this name.
    pub fn get_enum(&self, name: &str) -> (r: Option<&EnumDef>)
        requires
            self.wf(),
        ensures
            r is None <==> !self.enums().contains_key(name@),
            r matches Some(d) ==> *d == self.enums()[name@],
    {
        match self.enum_index(name) {
            Some(i) => Some(&self.enums[i]),
            None => None,
        }
    }

    /// The variant names of an enum, in order, for exhaustiveness checks.
    pub fn get_enum_variants(&self, name: &str) -> (r: Option<Vec<String>>)
        requires
            self.wf(),
        ensures
            r is None <==> !self.enums().contains_key(name@),
            r matches Some(v) ==> strs(v@) == self.enums()[name@].variants@.map_values(
                |x: VariantDef| x.name@,
            ),
    {
        match self.enum_index(name) {
            Some(i) => {
                let e = &self.enums[i];
                let mut names: Vec<String> = Vec::new();
                let mut k: usize = 0;
                while k < e.variants.len()
                    invariant
                        k <= e.variants@.len(),
                        strs(names@) =~= e.variants@.subrange(0, k as int).map_values(
                            |x: VariantDef| x.name@,
                        ),
                    decreases e.variants@.len() - k,
                {
                    let ghost before = strs(names@);
                    names.push(e.variants[k].name.clone());
                    k = k + 1;
                    assert(strs(names@) =~= before.push(e.variants@[k - 1].name@));
                    assert(e.variants@.subrange(0, k as int).map_values(|x: VariantDef| x.name@)
                        =~= e.variants@.subrange(0, k - 1).map_values(|x: VariantDef| x.name@).push(
                        e.variants@[k - 1].name@,
                    ));
                }
                assert(e.variants@.subrange(0, k as int) =~= e.variants@);
                Some(names)
            },
            None => None,
        }
    }

    /// The type of the first field with this name in the named struct.
    pub fn get_struct_field(&self, struct_name: &str, field_name: &str) -> (r: Option<
        &ResolvedType,
    >)
        requires
            self.wf(),
        ensures
            !self.structs().contains_key(struct_name@) ==> r is None,
            self.structs().contains_key(struct_name@) ==> match first_field(
                self.structs()[struct_name@].fields@,
                field_name@,
            ) {
                Some(t) => r == Some(&t),
                None => r is None,
            },
    {
        match self.struct_index(struct_name) {
            Some(i) => {
                let fields = &self.structs[i].fields;
                let ghost fs = fields@;
                assert(fs.subrange(0, fs.len() as int) =~= fs);
                let mut k: usize = 0;
                while k < fields.len()
                    invariant
                        k <= fs.len(),
                        fs == fields@,
                        i < self.structs@.len(),
                        self.structs().contains_key(struct_name@),
                        self.structs()[struct_name@] == self.structs@[i as int],
                        fs == self.structs@[i as int].fields@,
                        first_field(fs, field_name@) == first_field(fs.subrange(k as int, fs.len() as int), field_name@),
                    decreases fs.len() - k,
                {
                    proof {
                        let rest = fs.subrange(k as int, fs.len() as int);
                        assert(rest.drop_first() =~= fs.subrange(k + 1, fs.len() as int));
                        assert(rest[0] == fs[k as int]);
                    }
                    if str_eq(fields[k].0.as_str(), field_name) {
                        return Some(&fields[k].1);
                    }
                    k = k + 1;
                }
                None
            },
            None => None,
        }
    }
}

} // verus!
