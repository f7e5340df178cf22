use vstd::prelude::*;
use vstd::utf8::{decode_utf8, encode_utf8_decode_utf8, encode_utf8_valid_utf8, valid_utf8};

use crate::error_code::chars_of;
use crate::ffi_string::{lossy_text, OwnedString, OwnedStringArray, TextError};
use crate::ffi_values::holds_text;
use crate::text_order::{
    compare_chars, lemma_lex_asymmetric, lemma_lex_irreflexive, lemma_lex_total, lemma_lex_transitive,
    lex_lt, KeyOrder,
};

verus! {

broadcast use {encode_utf8_valid_utf8, encode_utf8_decode_utf8};

/// A color with 8-bit channels.
#[derive(Clone, Copy, Debug, PartialEq, Eq, Structural)]
pub struct RgbaColor {
    pub r: u8,
    pub g: u8,
    pub b: u8,
    pub a: u8,
}

/// The value of a plugin property or a setting. A float is carried as the
/// bits of its IEEE 754 double; a path as its text; a map as a `FieldMap`.
pub enum FieldValue {
    Bool(bool),
    Int(i64),
    Float(u64),
    Enum(String),
    String(String),
    Path(Vec<String>),
    Color(RgbaColor),
    Array(Vec<FieldValue>),
    Dict(FieldMap),
}

/// The entries of a map value, kept in strictly increasing order of key, so
/// that no key occurs twice.
pub struct FieldMap {
    entries: Vec<(String, FieldValue)>,
}

/// A field value with its text as sequences of characters.
pub ghost enum FieldValueView {
    Bool(bool),
    Int(i64),
    Float(u64),
    Enum(Seq<char>),
    String(Seq<char>),
    Path(Seq<Seq<char>>),
    Color(RgbaColor),
    Array(Seq<FieldValueView>),
    Dict(Seq<(Seq<char>, FieldValueView)>),
}

pub open spec fn strings_view(s: Seq<String>) -> Seq<Seq<char>> {
    s.map_values(|t: String| t@)
}

pub open spec fn fv(v: FieldValue) -> FieldValueView
    decreases v,
{
    match v {
        FieldValue::Bool(b) => FieldValueView::Bool(b),
        FieldValue::Int(i) => FieldValueView::Int(i),
        FieldValue::Float(f) => FieldValueView::Float(f),
        FieldValue::Enum(s) => FieldValueView::Enum(s@),
        FieldValue::String(s) => FieldValueView::String(s@),
        FieldValue::Path(ps) => FieldValueView::Path(strings_view(ps@)),
        FieldValue::Color(c) => FieldValueView::Color(c),
        FieldValue::Array(vs) => FieldValueView::Array(fv_list(vs@)),
        FieldValue::Dict(m) => FieldValueView::Dict(m.items()),
    }
}

pub open spec fn fv_list(s: Seq<FieldValue>) -> Seq<FieldValueView>
    decreases s,
{
    if s.len() == 0 {
        seq![]
    } else {
        fv_list(s.drop_last()).push(fv(s.last()))
    }
}

pub open spec fn fv_entries(s: Seq<(String, FieldValue)>) -> Seq<(Seq<char>, FieldValueView)>
    decreases s,
{
    if s.len() == 0 {
        seq![]
    } else {
        fv_entries(s.drop_last()).push((s.last().0@, fv(s.last().1)))
    }
}

impl FieldMap {
    /// The entries, with their text as characters, in increasing order of key.
    pub closed spec fn items(self) -> Seq<(Seq<char>, FieldValueView)>
        decreases self,
    {
        fv_entries(self.entries@)
    }

    #[verifier::type_invariant]
    spec fn keys_increase(self) -> bool {
        keys_sorted(fv_entries(self.entries@))
    }

    /// The map without entries.
    pub fn new() -> (r: Self)
        ensures
            r.items() == Seq::<(Seq<char>, FieldValueView)>::empty(),
    {
        FieldMap { entries: Vec::new() }
    }

    /// The entries, in increasing order of key.
    pub fn entries(&self) -> (r: &Vec<(String, FieldValue)>)
        ensures
            fv_entries(r@) == self.items(),
    {
        &self.entries
    }

    /// The number of entries.
    pub fn len(&self) -> (r: usize)
        ensures
            r == self.items().len(),
    {
        proof {
            lemma_fv_entries_index(self.entries@);
        }
        self.entries.len()
    }

    /// Sets the value of `key`: replaces the value of an equal key, else adds
    /// the entry at its place in the order.
    pub fn insert(&mut self, key: String, value: FieldValue)
        ensures
            final(self).items() == map_insert(old(self).items(), key@, fv(value)),
    {
        proof {
            use_type_invariant(&*self);
        }
        let mut entries: Vec<(String, FieldValue)> = Vec::new();
        std::mem::swap(&mut entries, &mut self.entries);
        let ghost before = fv_entries(entries@);
        insert_entry(&mut entries, key, value);
        proof {
            lemma_map_insert_sorted(before, key@, fv(value));
        }
        self.entries = entries;
    }
}

/// Inserting into a map whose keys increase keeps them increasing; the
/// first key afterwards is the inserted one or the first one before.
proof fn lemma_map_insert_sorted(m: Seq<(Seq<char>, FieldValueView)>, k: Seq<char>, v: FieldValueView)
    requires
        keys_sorted(m),
    ensures
        keys_sorted(map_insert(m, k, v)),
        map_insert(m, k, v).len() > 0,
        map_insert(m, k, v)[0].0 == k || (m.len() > 0 && map_insert(m, k, v)[0].0 == m[0].0),
    decreases m.len(),
{
    let r = map_insert(m, k, v);
    if m.len() == 0 {
    } else if m[0].0 == k {
        assert forall|i: int, j: int| 0 <= i < j < r.len() implies lex_lt(#[trigger] r[i].0, #[trigger] r[j].0) by {
            assert(lex_lt(m[i].0, m[j].0));
        }
    } else if lex_lt(k, m[0].0) {
        assert forall|i: int, j: int| 0 <= i < j < r.len() implies lex_lt(#[trigger] r[i].0, #[trigger] r[j].0) by {
            if i == 0 {
                if j > 1 {
                    assert(lex_lt(m[0].0, m[j - 1].0));
                    lemma_lex_transitive(k, m[0].0, m[j - 1].0);
                }
            } else {
                assert(lex_lt(m[i - 1].0, m[j - 1].0));
            }
        }
    } else {
        lemma_lex_total(m[0].0, k);
        let d = m.drop_first();
        assert forall|i: int, j: int| 0 <= i < j < d.len() implies lex_lt(#[trigger] d[i].0, #[trigger] d[j].0) by {
            assert(lex_lt(m[i + 1].0, m[j + 1].0));
        }
        lemma_map_insert_sorted(d, k, v);
        let t = map_insert(d, k, v);
        assert(r == seq![m[0]] + t);
        assert(lex_lt(m[0].0, t[0].0)) by {
            if d.len() > 0 && t[0].0 == d[0].0 {
                assert(lex_lt(m[0].0, m[1].0));
            }
        }
        assert forall|i: int, j: int| 0 <= i < j < r.len() implies lex_lt(#[trigger] r[i].0, #[trigger] r[j].0) by {
            if i == 0 {
                if j > 1 {
                    assert(lex_lt(t[0].0, t[j - 1].0));
                    lemma_lex_transitive(m[0].0, t[0].0, t[j - 1].0);
                }
            } else {
                assert(lex_lt(t[i - 1].0, t[j - 1].0));
            }
        }
    }
}

/// The keys of a map are in strictly increasing order.
pub open spec fn keys_sorted(m: Seq<(Seq<char>, FieldValueView)>) -> bool {
    forall|i: int, j: int| 0 <= i < j < m.len() ==> lex_lt(#[trigger] m[i].0, #[trigger] m[j].0)
}

/// Every map inside the value has its keys in strictly increasing order.
pub open spec fn fvv_wf(x: FieldValueView) -> bool
    decreases x,
{
    match x {
        FieldValueView::Array(xs) => forall|i: int| 0 <= i < xs.len() ==> fvv_wf(#[trigger] xs[i]),
        FieldValueView::Dict(es) => keys_sorted(es) && forall|i: int|
            0 <= i < es.len() ==> fvv_wf(#[trigger] es[i].1),
        _ => true,
    }
}

/// The kind of a field value, as C sees it.
#[derive(Clone, Copy, Debug, PartialEq, Eq, Structural)]
pub enum CFieldValueTag {
    Bool,
    Int,
    Float,
    Enum,
    String,
    Path,
    Color,
    Array,
    Dict,
}

/// A field value handed to C: the payload that the tag selects.
pub enum CFieldValue {
    Bool(u8),
    Int(i64),
    Float(u64),
    Enum(OwnedString),
    String(OwnedString),
    Path(OwnedStringArray),
    Color(RgbaColor),
    Array(CFieldValueArray),
    Dict(CFieldValueMap),
}

/// An array of field values handed to C, or a null pointer with a length.
pub struct CFieldValueArray {
    pub items: Option<Vec<CFieldValue>>,
    pub len: usize,
}

/// An entry of a map handed to C.
pub struct CFieldValueMapEntry {
    pub key: OwnedString,
    pub value: CFieldValue,
}

/// The entries of a map handed to C, or a null pointer with a length.
pub struct CFieldValueMap {
    pub entries: Option<Vec<CFieldValueMapEntry>>,
    pub len: usize,
}

pub open spec fn tag_spec(c: CFieldValue) -> CFieldValueTag {
    match c {
        CFieldValue::Bool(_) => CFieldValueTag::Bool,
        CFieldValue::Int(_) => CFieldValueTag::Int,
        CFieldValue::Float(_) => CFieldValueTag::Float,
        CFieldValue::Enum(_) => CFieldValueTag::Enum,
        CFieldValue::String(_) => CFieldValueTag::String,
        CFieldValue::Path(_) => CFieldValueTag::Path,
        CFieldValue::Color(_) => CFieldValueTag::Color,
        CFieldValue::Array(_) => CFieldValueTag::Array,
        CFieldValue::Dict(_) => CFieldValueTag::Dict,
    }
}

/// `c` is the C form of `x`: booleans as 0 or 1, text as owned UTF-8
/// strings, and arrays, paths and maps as non-null arrays of the same length
/// holding the C forms of the elements in the same order.
pub open spec fn wraps(c: CFieldValue, x: FieldValueView) -> bool
    decreases x,
{
    match x {
        FieldValueView::Bool(b) => c == CFieldValue::Bool(if b {
            1u8
        } else {
            0u8
        }),
        FieldValueView::Int(i) => c == CFieldValue::Int(i),
        FieldValueView::Float(f) => c == CFieldValue::Float(f),
        FieldValueView::Enum(t) => c matches CFieldValue::Enum(s) && holds_text(s, t),
        FieldValueView::String(t) => c matches CFieldValue::String(s) && holds_text(s, t),
        FieldValueView::Path(ps) => c matches CFieldValue::Path(arr) && arr.items matches Some(vs)
            && arr.len == vs@.len() && vs@.len() == ps.len() && forall|i: int|
            0 <= i < ps.len() ==> holds_text(#[trigger] vs@[i], ps[i]),
        FieldValueView::Color(col) => c == CFieldValue::Color(col),
        FieldValueView::Array(xs) => c matches CFieldValue::Array(arr) && arr.items matches Some(vs)
            && arr.len == vs@.len() && vs@.len() == xs.len() && forall|i: int|
            0 <= i < xs.len() ==> wraps(#[trigger] vs@[i], xs[i]),
        FieldValueView::Dict(es) => c matches CFieldValue::Dict(m) && m.entries matches Some(vs)
            && m.len == vs@.len() && vs@.len() == es.len() && forall|i: int|
            0 <= i < es.len() ==> holds_text(#[trigger] vs@[i].key, es[i].0) && wraps(
                vs@[i].value,
                es[i].1,
            ),
    }
}

impl CFieldValue {
    pub fn tag(&self) -> (r: CFieldValueTag)
        ensures
            r == tag_spec(*self),
    {
        match self {
            CFieldValue::Bool(_) => CFieldValueTag::Bool,
            CFieldValue::Int(_) => CFieldValueTag::Int,
            CFieldValue::Float(_) => CFieldValueTag::Float,
            CFieldValue::Enum(_) => CFieldValueTag::Enum,
            CFieldValue::String(_) => CFieldValueTag::String,
            CFieldValue::Path(_) => CFieldValueTag::Path,
            CFieldValue::Color(_) => CFieldValueTag::Color,
            CFieldValue::Array(_) => CFieldValueTag::Array,
            CFieldValue::Dict(_) => CFieldValueTag::Dict,
        }
    }

    /// The C form of a field value (see `wraps`). Every map of the value has
    /// its keys in increasing order, so reading the C form back gives the
    /// value again.
    pub fn wrap_ffi(value: &FieldValue) -> (r: CFieldValue)
        ensures
            wraps(r, fv(*value)),
            fvv_wf(fv(*value)),
            unwrap_spec(r) == Ok::<FieldValueView, UnwrapError>(fv(*value)),
        decreases value,
    {
        let r = match value {
            FieldValue::Bool(v) => CFieldValue::Bool(if *v {
                1u8
            } else {
                0u8
            }),
            FieldValue::Int(v) => CFieldValue::Int(*v),
            FieldValue::Float(v) => CFieldValue::Float(*v),
            FieldValue::Enum(v) => CFieldValue::Enum(OwnedString::from_string(v.clone())),
            FieldValue::String(v) => CFieldValue::String(OwnedString::from_string(v.clone())),
            FieldValue::Path(paths) => {
                let mut values: Vec<OwnedString> = Vec::new();
                let mut k: usize = 0;
                while k < paths.len()
                    invariant
                        k <= paths@.len(),
                        values@.len() == k,
                        forall|i: int|
                            0 <= i < k ==> holds_text(#[trigger] values@[i], paths@[i]@),
                    decreases paths@.len() - k,
                {
                    values.push(OwnedString::from_string(paths[k].clone()));
                    k = k + 1;
                }
                let r = CFieldValue::Path(OwnedStringArray::from_vec(values));
                proof {
                    assert(strings_view(paths@).len() == paths@.len());
                    assert forall|i: int| 0 <= i < paths@.len() implies #[trigger] strings_view(
                        paths@,
                    )[i] == paths@[i]@ by {}
                }
                r
            },
            FieldValue::Color(v) => CFieldValue::Color(*v),
            FieldValue::Array(values) => {
                let mut items: Vec<CFieldValue> = Vec::new();
                let mut k: usize = 0;
                while k < values.len()
                    invariant
                        *value == FieldValue::Array(*values),
                        k <= values@.len(),
                        items@.len() == k,
                        forall|i: int|
                            0 <= i < k ==> wraps(#[trigger] items@[i], fv(values@[i])),
                        forall|i: int| 0 <= i < k ==> fvv_wf(#[trigger] fv(values@[i])),
                    decreases values@.len() - k,
                {
                    proof {
                        assert((*value)->Array_0 == *values);
                    }
                    items.push(CFieldValue::wrap_ffi(&values[k]));
                    k = k + 1;
                }
                proof {
                    lemma_fv_list_index(values@);
                }
                let len = items.len();
                CFieldValue::Array(CFieldValueArray { items: Some(items), len })
            },
            FieldValue::Dict(map) => {
                let values = &map.entries;
                let mut entries: Vec<CFieldValueMapEntry> = Vec::new();
                let mut k: usize = 0;
                while k < values.len()
                    invariant
                        *value == FieldValue::Dict(*map),
                        map.entries == *values,
                        k <= values@.len(),
                        entries@.len() == k,
                        forall|i: int|
                            0 <= i < k ==> holds_text(#[trigger] entries@[i].key, values@[i].0@)
                                && wraps(entries@[i].value, fv(values@[i].1)),
                        forall|i: int| 0 <= i < k ==> fvv_wf(#[trigger] fv(values@[i].1)),
                    decreases values@.len() - k,
                {
                    let entry = &values[k];
                    proof {
                        assert((*value)->Dict_0.entries == *values);
                    }
                    entries.push(
                        CFieldValueMapEntry {
                            key: OwnedString::from_string(entry.0.clone()),
                            value: CFieldValue::wrap_ffi(&entry.1),
                        },
                    );
                    k = k + 1;
                }
                proof {
                    use_type_invariant(map);
                    lemma_fv_entries_index(values@);
                }
                let len = entries.len();
                CFieldValue::Dict(CFieldValueMap { entries: Some(entries), len })
            },
        };
        proof {
            lemma_wrap_then_unwrap(r, fv(*value));
        }
        r
    }
}

proof fn lemma_fv_list_index(s: Seq<FieldValue>)
    ensures
        fv_list(s).len() == s.len(),
        forall|i: int| 0 <= i < s.len() ==> #[trigger] fv_list(s)[i] == fv(s[i]),
    decreases s.len(),
{
    if s.len() > 0 {
        lemma_fv_list_index(s.drop_last());
        assert forall|i: int| 0 <= i < s.len() implies #[trigger] fv_list(s)[i] == fv(s[i]) by {
            if i < s.len() - 1 {
                assert(fv_list(s.drop_last())[i] == fv(s.drop_last()[i]));
            }
        }
    }
}

proof fn lemma_fv_entries_index(s: Seq<(String, FieldValue)>)
    ensures
        fv_entries(s).len() == s.len(),
        forall|i: int|
            0 <= i < s.len() ==> #[trigger] fv_entries(s)[i] == (s[i].0@, fv(s[i].1)),
    decreases s.len(),
{
    if s.len() > 0 {
        lemma_fv_entries_index(s.drop_last());
        assert forall|i: int| 0 <= i < s.len() implies #[trigger] fv_entries(s)[i] == (
            s[i].0@,
            fv(s[i].1),
        ) by {
            if i < s.len() - 1 {
                assert(fv_entries(s.drop_last())[i] == (s.drop_last()[i].0@, fv(s.drop_last()[i].1)));
            }
        }
    }
}

/// Why a C field value cannot be read back.
pub enum FieldValueError {
    /// A string pointer is null; the message names the kind of value.
    NullPointer(String),
    /// A string holds bytes that are not UTF-8.
    InvalidUtf8,
    /// An array pointer is null but its length is not zero.
    NullArray(String),
}

/// A reading error with its message as characters.
pub ghost enum UnwrapError {
    NullPointer(Seq<char>),
    InvalidUtf8,
    NullArray(Seq<char>),
}

pub open spec fn err_view(e: FieldValueError) -> UnwrapError {
    match e {
        FieldValueError::NullPointer(m) => UnwrapError::NullPointer(m@),
        FieldValueError::InvalidUtf8 => UnwrapError::InvalidUtf8,
        FieldValueError::NullArray(m) => UnwrapError::NullArray(m@),
    }
}

/// The text of an owned string, as `OwnedString::as_str` reads it.
pub open spec fn text_spec(s: OwnedString) -> Result<Seq<char>, UnwrapError> {
    match s.data {
        None => Err(UnwrapError::NullPointer("OwnedString pointer is null"@)),
        Some(d) => if valid_utf8(d@) {
            Ok(decode_utf8(d@))
        } else {
            Err(UnwrapError::InvalidUtf8)
        },
    }
}

/// The texts of the strings, left to right; the first error stops the reading.
pub open spec fn texts_spec(s: Seq<OwnedString>) -> Result<Seq<Seq<char>>, UnwrapError>
    decreases s.len(),
{
    if s.len() == 0 {
        Ok(seq![])
    } else {
        match texts_spec(s.drop_last()) {
            Err(e) => Err(e),
            Ok(ts) => match text_spec(s.last()) {
                Err(e) => Err(e),
                Ok(t) => Ok(ts.push(t)),
            },
        }
    }
}

/// Inserts `(k, v)` into a map whose keys increase: replaces the value of
/// an equal key, else goes before the first greater key.
pub open spec fn map_insert(
    m: Seq<(Seq<char>, FieldValueView)>,
    k: Seq<char>,
    v: FieldValueView,
) -> Seq<(Seq<char>, FieldValueView)>
    decreases m.len(),
{
    if m.len() == 0 {
        seq![(k, v)]
    } else if m[0].0 == k {
        m.update(0, (k, v))
    } else if lex_lt(k, m[0].0) {
        seq![(k, v)] + m
    } else {
        seq![m[0]] + map_insert(m.drop_first(), k, v)
    }
}

/// The field value that a C field value stands for, as `unwrap_ffi` reads
/// it: a boolean is any non-zero byte; a null array pointer with length
/// zero reads as empty, with another length as an error; the entries of a
/// map are inserted in order, each key read lossily.
pub open spec fn unwrap_spec(c: CFieldValue) -> Result<FieldValueView, UnwrapError>
    decreases c,
{
    match c {
        CFieldValue::Bool(b) => Ok(FieldValueView::Bool(b != 0)),
        CFieldValue::Int(i) => Ok(FieldValueView::Int(i)),
        CFieldValue::Float(f) => Ok(FieldValueView::Float(f)),
        CFieldValue::Enum(s) => match text_spec(s) {
            Ok(t) => Ok(FieldValueView::Enum(t)),
            Err(e) => Err(e),
        },
        CFieldValue::String(s) => match text_spec(s) {
            Ok(t) => Ok(FieldValueView::String(t)),
            Err(e) => Err(e),
        },
        CFieldValue::Path(arr) => match arr.items {
            None => if arr.len != 0 {
                Err(UnwrapError::NullArray("Path array has null pointer with non-zero length"@))
            } else {
                Ok(FieldValueView::Path(seq![]))
            },
            Some(vs) => match texts_spec(vs@) {
                Ok(ts) => Ok(FieldValueView::Path(ts)),
                Err(e) => Err(e),
            },
        },
        CFieldValue::Color(col) => Ok(FieldValueView::Color(col)),
        CFieldValue::Array(arr) => match arr.items {
            None => if arr.len != 0 {
                Err(
                    UnwrapError::NullArray(
                        "CFieldValue array has null pointer with non-zero length"@,
                    ),
                )
            } else {
                Ok(FieldValueView::Array(seq![]))
            },
            Some(vs) => match unwrap_list(vs@) {
                Ok(xs) => Ok(FieldValueView::Array(xs)),
                Err(e) => Err(e),
            },
        },
        CFieldValue::Dict(m) => match m.entries {
            None => if m.len != 0 {
                Err(UnwrapError::NullArray("CFieldValue map has null pointer with non-zero length"@))
            } else {
                Ok(FieldValueView::Dict(seq![]))
            },
            Some(es) => match unwrap_entries(es@) {
                Ok(map) => Ok(FieldValueView::Dict(map)),
                Err(e) => Err(e),
            },
        },
    }
}

pub open spec fn unwrap_list(s: Seq<CFieldValue>) -> Result<Seq<FieldValueView>, UnwrapError>
    decreases s,
{
    if s.len() == 0 {
        Ok(seq![])
    } else {
        match unwrap_list(s.drop_last()) {
            Err(e) => Err(e),
            Ok(xs) => match unwrap_spec(s.last()) {
                Err(e) => Err(e),
                Ok(x) => Ok(xs.push(x)),
            },
        }
    }
}

pub open spec fn unwrap_entries(s: Seq<CFieldValueMapEntry>) -> Result<
    Seq<(Seq<char>, FieldValueView)>,
    UnwrapError,
>
    decreases s,
{
    if s.len() == 0 {
        Ok(seq![])
    } else {
        match unwrap_entries(s.drop_last()) {
            Err(e) => Err(e),
            Ok(m) => match unwrap_spec(s.last().value) {
                Err(e) => Err(e),
                Ok(x) => Ok(map_insert(m, lossy_text(s.last().key.data), x)),
            },
        }
    }
}

pub open spec fn result_view(r: Result<FieldValue, FieldValueError>) -> Result<
    FieldValueView,
    UnwrapError,
> {
    match r {
        Ok(v) => Ok(fv(v)),
        Err(e) => Err(err_view(e)),
    }
}

fn read_text(s: &OwnedString) -> (r: Result<String, FieldValueError>)
    ensures
        match text_spec(*s) {
            Ok(t) => r matches Ok(x) && x@ == t,
            Err(e) => r matches Err(x) && err_view(x) == e,
        },
{
    match s.as_str() {
        Ok(t) => Ok(t.to_owned()),
        Err(TextError::NullPointer(m)) => Err(FieldValueError::NullPointer(m)),
        Err(TextError::InvalidUtf8) => Err(FieldValueError::InvalidUtf8),
    }
}

proof fn lemma_map_insert_at(
    m: Seq<(Seq<char>, FieldValueView)>,
    k: Seq<char>,
    v: FieldValueView,
    i: int,
)
    requires
        0 <= i <= m.len(),
        forall|j: int| 0 <= j < i ==> lex_lt(#[trigger] m[j].0, k),
        i < m.len() ==> !lex_lt(m[i].0, k),
    ensures
        map_insert(m, k, v) == if i < m.len() && m[i].0 == k {
            m.update(i, (k, v))
        } else {
            m.insert(i, (k, v))
        },
    decreases i,
{
    if i == 0 {
        if m.len() == 0 {
            assert(m.insert(0, (k, v)) =~= seq![(k, v)]);
        } else if m[0].0 != k {
            lemma_lex_total(m[0].0, k);
            assert(m.insert(0, (k, v)) =~= seq![(k, v)] + m);
        }
    } else {
        assert(lex_lt(m[0].0, k));
        lemma_lex_irreflexive(k);
        lemma_lex_asymmetric(m[0].0, k);
        let d = m.drop_first();
        assert forall|j: int| 0 <= j < i - 1 implies lex_lt(#[trigger] d[j].0, k) by {
            assert(d[j] == m[j + 1]);
        }
        lemma_map_insert_at(d, k, v, i - 1);
        if i < m.len() && m[i].0 == k {
            assert(seq![m[0]] + d.update(i - 1, (k, v)) =~= m.update(i, (k, v)));
        } else {
            assert(seq![m[0]] + d.insert(i - 1, (k, v)) =~= m.insert(i, (k, v)));
        }
    }
}

/// Inserts `(key, value)` into entries whose keys increase (see `map_insert`).
fn insert_entry(entries: &mut Vec<(String, FieldValue)>, key: String, value: FieldValue)
    ensures
        fv_entries(final(entries)@) == map_insert(fv_entries(old(entries)@), key@, fv(value)),
{
    let ghost m = fv_entries(entries@);
    proof {
        lemma_fv_entries_index(entries@);
    }
    let key_chars = chars_of(key.as_str());
    let mut i: usize = 0;
    while i < entries.len()
        invariant
            i <= entries@.len(),
            entries@ == old(entries)@,
            m == fv_entries(entries@),
            m.len() == entries@.len(),
            forall|j: int| 0 <= j < entries@.len() ==> #[trigger] m[j] == (entries@[j].0@, fv(entries@[j].1)),
            key_chars@ == key@,
            forall|j: int| 0 <= j < i ==> lex_lt(#[trigger] m[j].0, key@),
        decreases entries@.len() - i,
    {
        let existing = chars_of(entries[i].0.as_str());
        match compare_chars(&existing, &key_chars) {
            KeyOrder::Less => {},
            KeyOrder::Equal => {
                proof {
                    lemma_lex_irreflexive(key@);
                    lemma_map_insert_at(m, key@, fv(value), i as int);
                }
                let ghost old_entries = entries@;
                entries.set(i, (key, value));
                proof {
                    lemma_fv_entries_index(entries@);
                    assert(fv_entries(entries@) =~= m.update(i as int, (old_entries[i as int].0@, fv(value))));
                }
                return;
            },
            KeyOrder::Greater => {
                proof {
                    lemma_lex_asymmetric(m[i as int].0, key@);
                    lemma_map_insert_at(m, key@, fv(value), i as int);
                }
                let ghost old_entries = entries@;
                entries.insert(i, (key, value));
                proof {
                    lemma_fv_entries_index(entries@);
                    assert(fv_entries(entries@) =~= m.insert(i as int, (key@, fv(value))));
                }
                return;
            },
        }
        i = i + 1;
    }
    proof {
        lemma_map_insert_at(m, key@, fv(value), i as int);
    }
    let ghost old_entries = entries@;
    entries.push((key, value));
    proof {
        lemma_fv_entries_index(entries@);
        assert(fv_entries(entries@) =~= m.insert(i as int, (key@, fv(value))));
    }
}

impl CFieldValue {
    /// Reads a C field value back (see `unwrap_spec`).
    pub fn unwrap_ffi(&self) -> (r: Result<FieldValue, FieldValueError>)
        ensures
            result_view(r) == unwrap_spec(*self),
        decreases self,
    {
        match self {
            CFieldValue::Bool(b) => Ok(FieldValue::Bool(*b != 0)),
            CFieldValue::Int(i) => Ok(FieldValue::Int(*i)),
            CFieldValue::Float(f) => Ok(FieldValue::Float(*f)),
            CFieldValue::Enum(s) => match read_text(s) {
                Ok(t) => Ok(FieldValue::Enum(t)),
                Err(e) => Err(e),
            },
            CFieldValue::String(s) => match read_text(s) {
                Ok(t) => Ok(FieldValue::String(t)),
                Err(e) => Err(e),
            },
            CFieldValue::Path(arr) => match &arr.items {
                None => {
                    if arr.len != 0 {
                        return Err(
                            FieldValueError::NullArray(
                                "Path array has null pointer with non-zero length".to_owned(),
                            ),
                        );
                    }
                    let r = FieldValue::Path(Vec::new());
                    proof {
                        assert(strings_view(Seq::<String>::empty()) =~= seq![]);
                    }
                    Ok(r)
                },
                Some(vs) => {
                    let mut paths: Vec<String> = Vec::new();
                    let mut k: usize = 0;
                    proof {
                        assert(vs@.take(0) =~= Seq::<OwnedString>::empty());
                        assert(strings_view(paths@) =~= Seq::<Seq<char>>::empty());
                    }
                    while k < vs.len()
                        invariant
                            *self == CFieldValue::Path(*arr),
                            arr.items == Some(*vs),
                            k <= vs@.len(),
                            texts_spec(vs@.take(k as int)) == Ok::<Seq<Seq<char>>, UnwrapError>(
                                strings_view(paths@),
                            ),
                        decreases vs@.len() - k,
                    {
                        proof {
                            assert(vs@.take(k + 1).drop_last() =~= vs@.take(k as int));
                            assert(vs@.take(k + 1).last() == vs@[k as int]);
                        }
                        match read_text(&vs[k]) {
                            Ok(t) => {
                                let ghost prev = paths@;
                                paths.push(t);
                                proof {
                                    assert(strings_view(paths@) =~= strings_view(prev).push(t@));
                                }
                            },
                            Err(e) => {
                                proof {
                                    lemma_texts_prefix_err(vs@, k as int + 1);
                                }
                                return Err(e);
                            },
                        }
                        k = k + 1;
                    }
                    proof {
                        assert(vs@.take(k as int) =~= vs@);
                    }
                    Ok(FieldValue::Path(paths))
                },
            },
            CFieldValue::Color(col) => Ok(FieldValue::Color(*col)),
            CFieldValue::Array(arr) => match &arr.items {
                None => {
                    if arr.len != 0 {
                        return Err(
                            FieldValueError::NullArray(
                                "CFieldValue array has null pointer with non-zero length".to_owned(),
                            ),
                        );
                    }
                    Ok(FieldValue::Array(Vec::new()))
                },
                Some(vs) => {
                    let mut result: Vec<FieldValue> = Vec::new();
                    let mut k: usize = 0;
                    while k < vs.len()
                        invariant
                            *self == CFieldValue::Array(*arr),
                            arr.items == Some(*vs),
                            k <= vs@.len(),
                            unwrap_list(vs@.take(k as int)) == Ok::<
                                Seq<FieldValueView>,
                                UnwrapError,
                            >(fv_list(result@)),
                        decreases vs@.len() - k,
                    {
                        proof {
                            assert(vs@.take(k + 1).drop_last() =~= vs@.take(k as int));
                            assert(vs@.take(k + 1).last() == vs@[k as int]);
                        }
                        match vs[k].unwrap_ffi() {
                            Ok(x) => {
                                let ghost prev = result@;
                                result.push(x);
                                proof {
                                    assert(result@.drop_last() == prev);
                                }
                            },
                            Err(e) => {
                                proof {
                                    lemma_list_prefix_err(vs@, k as int + 1);
                                }
                                return Err(e);
                            },
                        }
                        k = k + 1;
                    }
                    proof {
                        assert(vs@.take(k as int) =~= vs@);
                    }
                    Ok(FieldValue::Array(result))
                },
            },
            CFieldValue::Dict(map) => match &map.entries {
                None => {
                    if map.len != 0 {
                        return Err(
                            FieldValueError::NullArray(
                                "CFieldValue map has null pointer with non-zero length".to_owned(),
                            ),
                        );
                    }
                    Ok(FieldValue::Dict(FieldMap::new()))
                },
                Some(es) => {
                    let mut result = FieldMap::new();
                    let mut k: usize = 0;
                    while k < es.len()
                        invariant
                            *self == CFieldValue::Dict(*map),
                            map.entries == Some(*es),
                            k <= es@.len(),
                            unwrap_entries(es@.take(k as int)) == Ok::<
                                Seq<(Seq<char>, FieldValueView)>,
                                UnwrapError,
                            >(result.items()),
                        decreases es@.len() - k,
                    {
                        proof {
                            assert(es@.take(k + 1).drop_last() =~= es@.take(k as int));
                            assert(es@.take(k + 1).last() == es@[k as int]);
                        }
                        let entry = &es[k];
                        let key = entry.key.as_string_lossy();
                        match entry.value.unwrap_ffi() {
                            Ok(x) => {
                                result.insert(key, x);
                            },
                            Err(e) => {
                                proof {
                                    lemma_entries_prefix_err(es@, k as int + 1);
                                }
                                return Err(e);
                            },
                        }
                        k = k + 1;
                    }
                    proof {
                        assert(es@.take(k as int) =~= es@);
                    }
                    Ok(FieldValue::Dict(result))
                },
            },
        }
    }
}

proof fn lemma_texts_prefix_err(s: Seq<OwnedString>, k: int)
    requires
        0 <= k <= s.len(),
        texts_spec(s.take(k)) is Err,
    ensures
        texts_spec(s) == texts_spec(s.take(k)),
    decreases s.len() - k,
{
    if k == s.len() {
        assert(s.take(k) =~= s);
    } else {
        assert(s.take(k + 1).drop_last() =~= s.take(k));
        lemma_texts_prefix_err(s, k + 1);
    }
}

proof fn lemma_list_prefix_err(s: Seq<CFieldValue>, k: int)
    requires
        0 <= k <= s.len(),
        unwrap_list(s.take(k)) is Err,
    ensures
        unwrap_list(s) == unwrap_list(s.take(k)),
    decreases s.len() - k,
{
    if k == s.len() {
        assert(s.take(k) =~= s);
    } else {
        assert(s.take(k + 1).drop_last() =~= s.take(k));
        lemma_list_prefix_err(s, k + 1);
    }
}

proof fn lemma_entries_prefix_err(s: Seq<CFieldValueMapEntry>, k: int)
    requires
        0 <= k <= s.len(),
        unwrap_entries(s.take(k)) is Err,
    ensures
        unwrap_entries(s) == unwrap_entries(s.take(k)),
    decreases s.len() - k,
{
    if k == s.len() {
        assert(s.take(k) =~= s);
    } else {
        assert(s.take(k + 1).drop_last() =~= s.take(k));
        lemma_entries_prefix_err(s, k + 1);
    }
}


proof fn lemma_texts_read_back(vs: Seq<OwnedString>, ps: Seq<Seq<char>>)
    requires
        vs.len() == ps.len(),
        forall|i: int| 0 <= i < ps.len() ==> holds_text(#[trigger] vs[i], ps[i]),
    ensures
        texts_spec(vs) == Ok::<Seq<Seq<char>>, UnwrapError>(ps),
    decreases vs.len(),
{
    if vs.len() > 0 {
        let n = vs.len() - 1;
        assert forall|i: int| 0 <= i < n implies holds_text(#[trigger] vs.drop_last()[i], ps.drop_last()[i]) by {
            assert(vs.drop_last()[i] == vs[i]);
            assert(holds_text(vs[i], ps[i]));
        }
        lemma_texts_read_back(vs.drop_last(), ps.drop_last());
        assert(holds_text(vs[n], ps[n]));
        assert(ps.drop_last().push(ps.last()) =~= ps);
    } else {
        assert(ps =~= Seq::<Seq<char>>::empty());
    }
}

proof fn lemma_list_read_back(vs: Seq<CFieldValue>, xs: Seq<FieldValueView>)
    requires
        vs.len() == xs.len(),
        forall|i: int| 0 <= i < xs.len() ==> unwrap_spec(#[trigger] vs[i]) == Ok::<FieldValueView, UnwrapError>(xs[i]),
    ensures
        unwrap_list(vs) == Ok::<Seq<FieldValueView>, UnwrapError>(xs),
    decreases vs.len(),
{
    if vs.len() > 0 {
        let n = vs.len() - 1;
        assert forall|i: int| 0 <= i < n implies unwrap_spec(#[trigger] vs.drop_last()[i]) == Ok::<FieldValueView, UnwrapError>(xs.drop_last()[i]) by {
            assert(vs.drop_last()[i] == vs[i]);
            assert(unwrap_spec(vs[i]) == Ok::<FieldValueView, UnwrapError>(xs[i]));
        }
        lemma_list_read_back(vs.drop_last(), xs.drop_last());
        assert(unwrap_spec(vs[n]) == Ok::<FieldValueView, UnwrapError>(xs[n]));
        assert(xs.drop_last().push(xs.last()) =~= xs);
    } else {
        assert(xs =~= Seq::<FieldValueView>::empty());
    }
}

proof fn lemma_entries_read_back(vs: Seq<CFieldValueMapEntry>, es: Seq<(Seq<char>, FieldValueView)>)
    requires
        vs.len() == es.len(),
        keys_sorted(es),
        forall|i: int| 0 <= i < es.len() ==> holds_text(#[trigger] vs[i].key, es[i].0),
        forall|i: int| 0 <= i < es.len() ==> unwrap_spec(#[trigger] vs[i].value) == Ok::<FieldValueView, UnwrapError>(es[i].1),
    ensures
        unwrap_entries(vs) == Ok::<Seq<(Seq<char>, FieldValueView)>, UnwrapError>(es),
    decreases vs.len(),
{
    if vs.len() > 0 {
        let n = vs.len() - 1;
        let d = vs.drop_last();
        let m = es.drop_last();
        assert forall|i: int| 0 <= i < n implies holds_text(#[trigger] d[i].key, m[i].0) by {
            assert(d[i] == vs[i]);
            assert(holds_text(vs[i].key, es[i].0));
        }
        assert forall|i: int| 0 <= i < n implies unwrap_spec(#[trigger] d[i].value) == Ok::<FieldValueView, UnwrapError>(m[i].1) by {
            assert(d[i] == vs[i]);
            assert(unwrap_spec(vs[i].value) == Ok::<FieldValueView, UnwrapError>(es[i].1));
        }
        assert forall|i: int, j: int| 0 <= i < j < m.len() implies lex_lt(#[trigger] m[i].0, #[trigger] m[j].0) by {
            assert(lex_lt(es[i].0, es[j].0));
        }
        lemma_entries_read_back(d, m);
        assert(holds_text(vs[n].key, es[n].0));
        assert(unwrap_spec(vs[n].value) == Ok::<FieldValueView, UnwrapError>(es[n].1));
        assert(lossy_text(vs.last().key.data) == es[n].0);
        assert forall|j: int| 0 <= j < m.len() implies lex_lt(#[trigger] m[j].0, es[n].0) by {
            assert(lex_lt(es[j].0, es[n].0));
        }
        lemma_map_insert_at(m, es[n].0, es[n].1, m.len() as int);
        assert(m.insert(m.len() as int, (es[n].0, es[n].1)) =~= es);
    } else {
        assert(es =~= Seq::<(Seq<char>, FieldValueView)>::empty());
    }
}

/// Reading back a C form of a field value view gives the view again,
/// wherever its maps have their keys in increasing order. The view of every
/// `FieldValue` has (a `FieldMap` keeps its keys so, and `wrap_ffi` states
/// it), so `unwrap_ffi` of what `wrap_ffi` made is always that value.
pub proof fn lemma_wrap_then_unwrap(c: CFieldValue, x: FieldValueView)
    requires
        wraps(c, x),
        fvv_wf(x),
    ensures
        unwrap_spec(c) == Ok::<FieldValueView, UnwrapError>(x),
    decreases x,
{
    match x {
        FieldValueView::Path(ps) => {
            let vs = c->Path_0.items->Some_0;
            lemma_texts_read_back(vs@, ps);
        },
        FieldValueView::Array(xs) => {
            let vs = c->Array_0.items->Some_0;
            assert forall|i: int| 0 <= i < xs.len() implies unwrap_spec(#[trigger] vs@[i]) == Ok::<FieldValueView, UnwrapError>(xs[i]) by {
                assert(wraps(vs@[i], xs[i]));
                assert(fvv_wf(xs[i]));
                lemma_wrap_then_unwrap(vs@[i], xs[i]);
            }
            lemma_list_read_back(vs@, xs);
        },
        FieldValueView::Dict(es) => {
            let vs = c->Dict_0.entries->Some_0;
            assert forall|i: int| 0 <= i < es.len() implies unwrap_spec(#[trigger] vs@[i].value) == Ok::<FieldValueView, UnwrapError>(es[i].1) by {
                assert(holds_text(vs@[i].key, es[i].0) && wraps(vs@[i].value, es[i].1));
                assert(fvv_wf(es[i].1));
                lemma_wrap_then_unwrap(vs@[i].value, es[i].1);
            }
            assert forall|i: int| 0 <= i < es.len() implies holds_text(#[trigger] vs@[i].key, es[i].0) by {
                assert(holds_text(vs@[i].key, es[i].0) && wraps(vs@[i].value, es[i].1));
            }
            lemma_entries_read_back(vs@, es);
        },
        _ => {},
    }
}

} // verus!
