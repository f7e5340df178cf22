use vstd::prelude::*;

use crate::field_value::{
    fv, result_view, strings_view, unwrap_spec, wraps, CFieldValue,
    FieldValue, FieldValueError, FieldValueView, RgbaColor, UnwrapError,
};

verus! {

/// The kind of a field value, as the GUI's property editors see it.
#[derive(Clone, Copy, Debug, PartialEq, Eq, Structural)]
pub enum QFieldValueKind {
    Bool,
    Int,
    Float,
    Enum,
    String,
    Path,
    Color,
    Array,
    Dict,
}

/// A field value held for the GUI's property editors, which read it through
/// typed getters that give a neutral value for another kind.
pub struct CxxQtFieldValue {
    pub inner: FieldValue,
}

pub open spec fn kind_spec(v: FieldValue) -> QFieldValueKind {
    match v {
        FieldValue::Bool(_) => QFieldValueKind::Bool,
        FieldValue::Int(_) => QFieldValueKind::Int,
        FieldValue::Float(_) => QFieldValueKind::Float,
        FieldValue::Enum(_) => QFieldValueKind::Enum,
        FieldValue::String(_) => QFieldValueKind::String,
        FieldValue::Path(_) => QFieldValueKind::Path,
        FieldValue::Color(_) => QFieldValueKind::Color,
        FieldValue::Array(_) => QFieldValueKind::Array,
        FieldValue::Dict(_) => QFieldValueKind::Dict,
    }
}

/// The kind reported names the variant of the value: a path is reported as
/// a path, a string as a string, and so on for each variant, so the GUI
/// reads a value through the getter of its own variant (`as_paths` for a
/// path, `as_string` for a string).
pub proof fn lemma_kind_names_the_variant(v: FieldValue)
    ensures
        kind_spec(v) == QFieldValueKind::Bool <==> v is Bool,
        kind_spec(v) == QFieldValueKind::Int <==> v is Int,
        kind_spec(v) == QFieldValueKind::Float <==> v is Float,
        kind_spec(v) == QFieldValueKind::Enum <==> v is Enum,
        kind_spec(v) == QFieldValueKind::String <==> v is String,
        kind_spec(v) == QFieldValueKind::Path <==> v is Path,
        kind_spec(v) == QFieldValueKind::Color <==> v is Color,
        kind_spec(v) == QFieldValueKind::Array <==> v is Array,
        kind_spec(v) == QFieldValueKind::Dict <==> v is Dict,
{
}

impl CxxQtFieldValue {
    pub fn new(inner: FieldValue) -> (r: Self)
        ensures
            r.inner == inner,
    {
        CxxQtFieldValue { inner }
    }

    pub fn kind(&self) -> (r: QFieldValueKind)
        ensures
            r == kind_spec(self.inner),
    {
        match &self.inner {
            FieldValue::Bool(_) => QFieldValueKind::Bool,
            FieldValue::Int(_) => QFieldValueKind::Int,
            FieldValue::Float(_) => QFieldValueKind::Float,
            FieldValue::Enum(_) => QFieldValueKind::Enum,
            FieldValue::String(_) => QFieldValueKind::String,
            FieldValue::Path(_) => QFieldValueKind::Path,
            FieldValue::Color(_) => QFieldValueKind::Color,
            FieldValue::Array(_) => QFieldValueKind::Array,
            FieldValue::Dict(_) => QFieldValueKind::Dict,
        }
    }

    /// The boolean, `false` for another kind.
    pub fn as_bool(&self) -> (r: bool)
        ensures
            r == (self.inner matches FieldValue::Bool(b) && b),
    {
        match &self.inner {
            FieldValue::Bool(b) => *b,
            _ => false,
        }
    }

    /// The integer, 0 for another kind.
    pub fn as_int(&self) -> (r: i64)
        ensures
            r == match self.inner {
                FieldValue::Int(i) => i,
                _ => 0i64,
            },
    {
        match &self.inner {
            FieldValue::Int(i) => *i,
            _ => 0,
        }
    }

    /// The bits of the float, those of 0.0 (all zero) for another kind.
    pub fn as_float(&self) -> (r: u64)
        ensures
            r == match self.inner {
                FieldValue::Float(f) => f,
                _ => 0u64,
            },
    {
        match &self.inner {
            FieldValue::Float(f) => *f,
            _ => 0,
        }
    }

    /// The text of a string or an enum value, empty for another kind.
    pub fn as_string(&self) -> (r: String)
        ensures
            r@ == match self.inner {
                FieldValue::String(s) => s@,
                FieldValue::Enum(s) => s@,
                _ => Seq::<char>::empty(),
            },
    {
        match &self.inner {
            FieldValue::String(s) => s.clone(),
            FieldValue::Enum(s) => s.clone(),
            _ => String::new(),
        }
    }

    /// The color, `None` for another kind (the GUI then shows its default color).
    pub fn as_color(&self) -> (r: Option<RgbaColor>)
        ensures
            r == match self.inner {
                FieldValue::Color(c) => Some(c),
                _ => None::<RgbaColor>,
            },
    {
        match &self.inner {
            FieldValue::Color(c) => Some(*c),
            _ => None,
        }
    }

    /// The paths, none for another kind.
    pub fn as_paths(&self) -> (r: Vec<String>)
        ensures
            strings_view(r@) == match self.inner {
                FieldValue::Path(ps) => strings_view(ps@),
                _ => Seq::<Seq<char>>::empty(),
            },
    {
        match &self.inner {
            FieldValue::Path(ps) => {
                let mut r: Vec<String> = Vec::new();
                let mut k: usize = 0;
                while k < ps.len()
                    invariant
                        k <= ps@.len(),
                        strings_view(r@) == strings_view(ps@).take(k as int),
                    decreases ps@.len() - k,
                {
                    let ghost before = r@;
                    r.push(ps[k].clone());
                    proof {
                        assert(strings_view(r@) =~= strings_view(before).push(ps@[k as int]@));
                        assert(strings_view(ps@).take(k + 1) =~= strings_view(ps@).take(k as int).push(
                            ps@[k as int]@,
                        ));
                    }
                    k = k + 1;
                }
                proof {
                    assert(strings_view(ps@).take(k as int) =~= strings_view(ps@));
                }
                r
            },
            _ => {
                let r: Vec<String> = Vec::new();
                proof {
                    assert(strings_view(r@) =~= Seq::<Seq<char>>::empty());
                }
                r
            },
        }
    }
}

/// The value a clip's property is bound to. There is one form for now, a
/// value that does not change over time.
pub enum ClipBindingValue {
    Static(FieldValue),
}

/// A clip's property binding handed to C.
pub enum CClipBindingValue {
    Static(CFieldValue),
}

/// The kind of a binding, as C sees it.
#[derive(Clone, Copy, Debug, PartialEq, Eq, Structural)]
pub enum CClipBindingValueTag {
    Static,
}

impl CClipBindingValue {
    pub fn tag(&self) -> (r: CClipBindingValueTag)
        ensures
            r == CClipBindingValueTag::Static,
    {
        match self {
            CClipBindingValue::Static(_) => CClipBindingValueTag::Static,
        }
    }

    /// The C form of a binding: its value in C form (see `wraps`).
    pub fn wrap_ffi(value: &ClipBindingValue) -> (r: Self)
        ensures
            match (*value, r) {
                (ClipBindingValue::Static(v), CClipBindingValue::Static(c)) => wraps(c, fv(v)),
            },
    {
        match value {
            ClipBindingValue::Static(v) => CClipBindingValue::Static(CFieldValue::wrap_ffi(v)),
        }
    }

    /// Reads a binding back from its C form (see `unwrap_spec`).
    pub fn unwrap_ffi(&self) -> (r: Result<ClipBindingValue, FieldValueError>)
        ensures
            match *self {
                CClipBindingValue::Static(c) => match r {
                    Ok(ClipBindingValue::Static(v)) => unwrap_spec(c) == Ok::<
                        FieldValueView,
                        UnwrapError,
                    >(fv(v)),
                    Err(e) => result_view(Err(e)) == unwrap_spec(c),
                },
            },
    {
        match self {
            CClipBindingValue::Static(c) => match c.unwrap_ffi() {
                Ok(v) => Ok(ClipBindingValue::Static(v)),
                Err(e) => Err(e),
            },
        }
    }
}

} // verus!
