use vstd::prelude::*;

use crate::error_code::chars_of;
use crate::ffi_string::{join_spec, join_strings, OwnedString};
use crate::ffi_values::{holds_text, FfiArray};
use crate::field_value::{fv, strings_view, wraps, CFieldValue, FieldValue};
use crate::text_order::{compare_chars, lemma_lex_total, lemma_lex_transitive, lex_lt, KeyOrder};

verus! {

/// The kind of value a property holds; the bounds and choices that only the
/// property editors read are left out.
#[derive(Clone, Copy, Debug, PartialEq, Eq, Structural)]
pub enum FieldKind {
    Bool,
    Int,
    Float,
    Enum,
    String,
    FilePath,
    Color,
    Array,
    Dict,
}

/// A property of the settings or of a clip kind: its full key, the path of
/// categories it is filed under, its label, its kind and its default value.
pub struct PropertySchema {
    pub key: String,
    pub category: Vec<String>,
    pub label: String,
    pub kind: FieldKind,
    pub default: FieldValue,
}

/// The kind of a property, as C sees it.
#[derive(Clone, Copy, Debug, PartialEq, Eq, Structural)]
pub enum SettingsFieldType {
    Bool,
    Int,
    Float,
    Enum,
    String,
    FilePath,
    Color,
    Array,
    Dict,
}

pub open spec fn field_type_of(k: FieldKind) -> SettingsFieldType {
    match k {
        FieldKind::Bool => SettingsFieldType::Bool,
        FieldKind::Int => SettingsFieldType::Int,
        FieldKind::Float => SettingsFieldType::Float,
        FieldKind::Enum => SettingsFieldType::Enum,
        FieldKind::String => SettingsFieldType::String,
        FieldKind::FilePath => SettingsFieldType::FilePath,
        FieldKind::Color => SettingsFieldType::Color,
        FieldKind::Array => SettingsFieldType::Array,
        FieldKind::Dict => SettingsFieldType::Dict,
    }
}

/// The kind handed to C names the property's own kind, and no two kinds
/// are handed over alike: a file path is handed over as a file path, a
/// string as a string, and so on for each kind.
pub proof fn lemma_field_type_names_the_kind(k: FieldKind, other: FieldKind)
    ensures
        field_type_of(k) == SettingsFieldType::Bool <==> k == FieldKind::Bool,
        field_type_of(k) == SettingsFieldType::Int <==> k == FieldKind::Int,
        field_type_of(k) == SettingsFieldType::Float <==> k == FieldKind::Float,
        field_type_of(k) == SettingsFieldType::Enum <==> k == FieldKind::Enum,
        field_type_of(k) == SettingsFieldType::String <==> k == FieldKind::String,
        field_type_of(k) == SettingsFieldType::FilePath <==> k == FieldKind::FilePath,
        field_type_of(k) == SettingsFieldType::Color <==> k == FieldKind::Color,
        field_type_of(k) == SettingsFieldType::Array <==> k == FieldKind::Array,
        field_type_of(k) == SettingsFieldType::Dict <==> k == FieldKind::Dict,
        field_type_of(k) == field_type_of(other) ==> k == other,
{
}

/// A property handed to C.
pub struct FfiPropertySchema {
    pub key: OwnedString,
    pub category: OwnedString,
    pub label: OwnedString,
    pub kind_type: SettingsFieldType,
    pub default_value: CFieldValue,
}

/// The separator between the categories of a path: `" > "`.
pub open spec fn category_separator() -> Seq<char> {
    seq![' ', '>', ' ']
}

/// The category path as one string, its parts joined with `" > "`.
pub fn join_category(parts: &Vec<String>) -> (r: String)
    ensures
        r@ == join_spec(strings_view(parts@), category_separator()),
{
    let sep = " > ";
    proof {
        reveal_strlit(" > ");
        assert(sep@ =~= category_separator());
    }
    join_strings(parts, sep)
}

impl FfiPropertySchema {
    /// The C form of a property: its key, its categories joined with
    /// `" > "`, its label, its kind and the C form of its default value.
    pub fn from_schema(schema: &PropertySchema) -> (r: Self)
        ensures
            holds_text(r.key, schema.key@),
            holds_text(r.category, join_spec(strings_view(schema.category@), category_separator())),
            holds_text(r.label, schema.label@),
            r.kind_type == field_type_of(schema.kind),
            wraps(r.default_value, fv(schema.default)),
    {
        let kind_type = match schema.kind {
            FieldKind::Bool => SettingsFieldType::Bool,
            FieldKind::Int => SettingsFieldType::Int,
            FieldKind::Float => SettingsFieldType::Float,
            FieldKind::Enum => SettingsFieldType::Enum,
            FieldKind::String => SettingsFieldType::String,
            FieldKind::FilePath => SettingsFieldType::FilePath,
            FieldKind::Color => SettingsFieldType::Color,
            FieldKind::Array => SettingsFieldType::Array,
            FieldKind::Dict => SettingsFieldType::Dict,
        };
        let category_str = join_category(&schema.category);
        let default_value = CFieldValue::wrap_ffi(&schema.default);
        FfiPropertySchema {
            key: OwnedString::from_string(schema.key.clone()),
            category: OwnedString::from_string(category_str),
            label: OwnedString::from_string(schema.label.clone()),
            kind_type,
            default_value,
        }
    }
}

/// The C forms of the settings' properties, in order.
pub fn settings_get_all_fields(fields: &Vec<PropertySchema>) -> (r: FfiArray<FfiPropertySchema>)
    ensures
        r.items@.len() == fields@.len(),
        forall|i: int| 0 <= i < fields@.len() ==> {
            let (c, s) = (#[trigger] r.items@[i], fields@[i]);
            &&& holds_text(c.key, s.key@)
            &&& holds_text(c.category, join_spec(strings_view(s.category@), category_separator()))
            &&& holds_text(c.label, s.label@)
            &&& c.kind_type == field_type_of(s.kind)
            &&& wraps(c.default_value, fv(s.default))
        },
{
    let mut items: Vec<FfiPropertySchema> = Vec::new();
    let mut k: usize = 0;
    while k < fields.len()
        invariant
            k <= fields@.len(),
            items@.len() == k,
            forall|i: int| 0 <= i < k ==> {
                let (c, s) = (#[trigger] items@[i], fields@[i]);
                &&& holds_text(c.key, s.key@)
                &&& holds_text(c.category, join_spec(strings_view(s.category@), category_separator()))
                &&& holds_text(c.label, s.label@)
                &&& c.kind_type == field_type_of(s.kind)
                &&& wraps(c.default_value, fv(s.default))
            },
        decreases fields@.len() - k,
    {
        items.push(FfiPropertySchema::from_schema(&fields[k]));
        k = k + 1;
    }
    FfiArray::from_vec(items)
}

/// The strings are in strictly increasing order.
pub open spec fn strictly_sorted(s: Seq<Seq<char>>) -> bool {
    forall|i: int, j: int| 0 <= i < j < s.len() ==> lex_lt(#[trigger] s[i], #[trigger] s[j])
}

/// Every category that some property is filed under.
pub open spec fn all_categories(fields: Seq<PropertySchema>) -> Set<Seq<char>> {
    Set::new(
        |t: Seq<char>|
            exists|f: int, c: int|
                0 <= f < fields.len() && 0 <= c < fields[f].category@.len()
                    && #[trigger] fields[f].category@[c]@ == t,
    )
}

/// Adds `s` to strings kept in strictly increasing order, unless it is there.
fn insert_sorted_unique(v: &mut Vec<String>, s: &String)
    requires
        strictly_sorted(strings_view(old(v)@)),
    ensures
        strictly_sorted(strings_view(final(v)@)),
        forall|t: Seq<char>| #[trigger] strings_view(final(v)@).contains(t) <==> (strings_view(
            old(v)@,
        ).contains(t) || t == s@),
{
    let ghost w = strings_view(v@);
    let key = chars_of(s.as_str());
    let mut i: usize = 0;
    while i < v.len()
        invariant
            i <= v@.len(),
            v@ == old(v)@,
            w == strings_view(v@),
            strictly_sorted(w),
            key@ == s@,
            forall|j: int| 0 <= j < i ==> lex_lt(#[trigger] w[j], s@),
        decreases v@.len() - i,
    {
        let existing = chars_of(v[i].as_str());
        match compare_chars(&existing, &key) {
            KeyOrder::Less => {},
            KeyOrder::Equal => {
                proof {
                    assert(w[i as int] == s@);
                    assert forall|t: Seq<char>| #[trigger] w.contains(t) <==> (w.contains(t) || t == s@) by {
                        if t == s@ {
                            assert(w[i as int] == t);
                        }
                    }
                }
                return;
            },
            KeyOrder::Greater => {
                proof {
                    lemma_lex_total(w[i as int], s@);
                }
                v.insert(i, s.clone());
                proof {
                    let nw = strings_view(v@);
                    assert(nw =~= w.insert(i as int, s@));
                    assert forall|a: int, b: int| 0 <= a < b < nw.len() implies lex_lt(#[trigger] nw[a], #[trigger] nw[b]) by {
                        if b < i {
                        } else if a < i && b == i {
                        } else if a < i && b > i {
                            assert(nw[b] == w[b - 1]);
                            assert(lex_lt(w[a], w[b - 1]));
                        } else if a == i {
                            assert(nw[b] == w[b - 1]);
                            if b - 1 > i {
                                assert(lex_lt(w[i as int], w[b - 1]));
                                lemma_lex_transitive(s@, w[i as int], w[b - 1]);
                            }
                        } else {
                            assert(nw[a] == w[a - 1] && nw[b] == w[b - 1]);
                        }
                    }
                    assert forall|t: Seq<char>| #[trigger] nw.contains(t) <==> (w.contains(t) || t == s@) by {
                        if nw.contains(t) {
                            let j = choose|j: int| 0 <= j < nw.len() && nw[j] == t;
                            if j < i {
                                assert(w[j] == t);
                            } else if j > i {
                                assert(w[j - 1] == t);
                            }
                        }
                        if w.contains(t) {
                            let j = choose|j: int| 0 <= j < w.len() && w[j] == t;
                            if j < i {
                                assert(nw[j] == t);
                            } else {
                                assert(nw[j + 1] == t);
                            }
                        }
                        if t == s@ {
                            assert(nw[i as int] == t);
                        }
                    }
                }
                return;
            },
        }
        i = i + 1;
    }
    v.push(s.clone());
    proof {
        let nw = strings_view(v@);
        assert(nw =~= w.push(s@));
        assert forall|a: int, b: int| 0 <= a < b < nw.len() implies lex_lt(#[trigger] nw[a], #[trigger] nw[b]) by {
            if b < w.len() {
                assert(nw[a] == w[a] && nw[b] == w[b]);
            }
        }
        assert forall|t: Seq<char>| #[trigger] nw.contains(t) <==> (w.contains(t) || t == s@) by {
            if nw.contains(t) {
                let j = choose|j: int| 0 <= j < nw.len() && nw[j] == t;
                if j < w.len() {
                    assert(w[j] == t);
                }
            }
            if w.contains(t) {
                let j = choose|j: int| 0 <= j < w.len() && w[j] == t;
                assert(nw[j] == t);
            }
            if t == s@ {
                assert(nw[w.len() as int] == t);
            }
        }
    }
}

/// Every category of the properties once, in increasing order.
pub fn collect_categories(fields: &Vec<PropertySchema>) -> (r: Vec<String>)
    ensures
        strictly_sorted(strings_view(r@)),
        forall|t: Seq<char>| #[trigger] strings_view(r@).contains(t) <==> all_categories(fields@).contains(t),
{
    let mut cats: Vec<String> = Vec::new();
    let mut f: usize = 0;
    while f < fields.len()
        invariant
            f <= fields@.len(),
            strictly_sorted(strings_view(cats@)),
            forall|t: Seq<char>| #[trigger] strings_view(cats@).contains(t) <==> exists|g: int, c: int|
                0 <= g < f && 0 <= c < fields@[g].category@.len() && #[trigger] fields@[g].category@[c]@ == t,
        decreases fields@.len() - f,
    {
        let field = &fields[f];
        let mut c: usize = 0;
        while c < field.category.len()
            invariant
                f < fields@.len(),
                *field == fields@[f as int],
                c <= field.category@.len(),
                strictly_sorted(strings_view(cats@)),
                forall|t: Seq<char>| #[trigger] strings_view(cats@).contains(t) <==> (exists|g: int, d: int|
                    0 <= g < f && 0 <= d < fields@[g].category@.len() && #[trigger] fields@[g].category@[d]@ == t)
                    || (exists|d: int| 0 <= d < c && #[trigger] field.category@[d]@ == t),
            decreases field.category@.len() - c,
        {
            let ghost before = strings_view(cats@);
            insert_sorted_unique(&mut cats, &field.category[c]);
            proof {
                assert forall|t: Seq<char>| #[trigger] strings_view(cats@).contains(t) <==> (exists|g: int, d: int|
                    0 <= g < f && 0 <= d < fields@[g].category@.len() && #[trigger] fields@[g].category@[d]@ == t)
                    || (exists|d: int| 0 <= d < c + 1 && #[trigger] field.category@[d]@ == t) by {
                    if t == field.category@[c as int]@ {
                        assert(field.category@[c as int]@ == t);
                    }
                    if exists|d: int| 0 <= d < c + 1 && #[trigger] field.category@[d]@ == t {
                        let d = choose|d: int| 0 <= d < c + 1 && #[trigger] field.category@[d]@ == t;
                        if d < c {
                            assert(before.contains(t));
                        }
                    }
                }
            }
            c = c + 1;
        }
        proof {
            assert forall|t: Seq<char>| #[trigger] strings_view(cats@).contains(t) <==> exists|g: int, d: int|
                0 <= g < f + 1 && 0 <= d < fields@[g].category@.len() && #[trigger] fields@[g].category@[d]@ == t by {
                if exists|d: int| 0 <= d < c && #[trigger] field.category@[d]@ == t {
                    let d = choose|d: int| 0 <= d < c && #[trigger] field.category@[d]@ == t;
                    assert(fields@[f as int].category@[d]@ == t);
                }
                if exists|g: int, d: int| 0 <= g < f + 1 && 0 <= d < fields@[g].category@.len() && #[trigger] fields@[g].category@[d]@ == t {
                    let (g, d) = choose|g: int, d: int| 0 <= g < f + 1 && 0 <= d < fields@[g].category@.len() && #[trigger] fields@[g].category@[d]@ == t;
                    if g == f {
                        assert(field.category@[d]@ == t);
                    }
                }
            }
        }
        f = f + 1;
    }
    cats
}

/// The categories of the settings' properties, each once, in increasing
/// order, as C strings.
pub fn settings_get_categories(fields: &Vec<PropertySchema>) -> (r: FfiArray<OwnedString>)
    ensures
        exists|names: Seq<Seq<char>>| {
            &&& strictly_sorted(names)
            &&& forall|t: Seq<char>| #[trigger] names.contains(t) <==> all_categories(fields@).contains(t)
            &&& r.items@.len() == names.len()
            &&& forall|i: int| 0 <= i < names.len() ==> holds_text(#[trigger] r.items@[i], names[i])
        },
{
    let cats = collect_categories(fields);
    let mut owned: Vec<OwnedString> = Vec::new();
    let mut k: usize = 0;
    while k < cats.len()
        invariant
            k <= cats@.len(),
            owned@.len() == k,
            forall|i: int| 0 <= i < k ==> holds_text(#[trigger] owned@[i], cats@[i]@),
        decreases cats@.len() - k,
    {
        owned.push(OwnedString::from_string(cats[k].clone()));
        k = k + 1;
    }
    proof {
        let names = strings_view(cats@);
        assert forall|i: int| 0 <= i < names.len() implies holds_text(#[trigger] owned@[i], names[i]) by {
            assert(names[i] == cats@[i]@);
        }
    }
    FfiArray::from_vec(owned)
}

/// The C forms of the properties of a clip's kind; `None` where the plugins
/// know no such kind.
pub fn clip_get_all_fields(schema: Option<&Vec<PropertySchema>>) -> (r: Option<FfiArray<FfiPropertySchema>>)
    ensures
        schema is None <==> r is None,
        schema matches Some(fields) ==> r matches Some(a) && a.items@.len() == fields@.len()
            && forall|i: int| 0 <= i < fields@.len() ==> {
            let (c, s) = (#[trigger] a.items@[i], fields@[i]);
            &&& holds_text(c.key, s.key@)
            &&& holds_text(c.category, join_spec(strings_view(s.category@), category_separator()))
            &&& holds_text(c.label, s.label@)
            &&& c.kind_type == field_type_of(s.kind)
            &&& wraps(c.default_value, fv(s.default))
        },
{
    match schema {
        Some(fields) => Some(settings_get_all_fields(fields)),
        None => None,
    }
}

/// The categories of the properties of a clip's kind, each once, in
/// increasing order; `None` where the plugins know no such kind.
pub fn clip_get_categories(schema: Option<&Vec<PropertySchema>>) -> (r: Option<FfiArray<OwnedString>>)
    ensures
        schema is None <==> r is None,
        schema matches Some(fields) ==> r matches Some(a) && exists|names: Seq<Seq<char>>| {
            &&& strictly_sorted(names)
            &&& forall|t: Seq<char>| #[trigger] names.contains(t) <==> all_categories(fields@).contains(t)
            &&& a.items@.len() == names.len()
            &&& forall|i: int| 0 <= i < names.len() ==> holds_text(#[trigger] a.items@[i], names[i])
        },
{
    match schema {
        Some(fields) => Some(settings_get_categories(fields)),
        None => None,
    }
}

} // verus!
