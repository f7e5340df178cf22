use vstd::prelude::*;
use vstd::string::StrSliceExecFns;
use vstd::string::StringSliceAdditionalSpecFns;
use vstd::string::StringExecFns;
use vstd::utf8::{decode_utf8, encode_utf8, valid_utf8};

verus! {

/// The parts joined with the separator between each two of them.
pub open spec fn join_spec(parts: Seq<Seq<char>>, sep: Seq<char>) -> Seq<char>
    decreases parts.len(),
{
    if parts.len() == 0 {
        seq![]
    } else if parts.len() == 1 {
        parts[0]
    } else {
        join_spec(parts.drop_last(), sep) + sep + parts.last()
    }
}

/// The strings joined with `sep` between each two of them.
pub fn join_strings(parts: &Vec<String>, sep: &str) -> (r: String)
    ensures
        r@ == join_spec(parts@.map_values(|t: String| t@), sep@),
{
    let ghost views = parts@.map_values(|t: String| t@);
    let mut r = String::new();
    let mut k: usize = 0;
    while k < parts.len()
        invariant
            k <= parts@.len(),
            views == parts@.map_values(|t: String| t@),
            r@ == join_spec(views.take(k as int), sep@),
        decreases parts@.len() - k,
    {
        proof {
            assert(views.take(k + 1).drop_last() =~= views.take(k as int));
            assert(views.take(k + 1).last() == parts@[k as int]@);
        }
        if k > 0 {
            r.append(sep);
        }
        r.append(parts[k].as_str());
        proof {
            if k == 0 {
                assert(r@ =~= views.take(1)[0]);
            }
        }
        k = k + 1;
    }
    proof {
        assert(views.take(k as int) =~= views);
    }
    r
}

/// A view of UTF-8 text handed across the C boundary: either a null pointer
/// (with whatever length the caller passed) or the bytes it points at.
pub struct StringView {
    /// The bytes behind the pointer, or `None` for a null pointer.
    pub data: Option<Vec<u8>>,
    /// The length that travels with the pointer.
    pub len: usize,
}

impl StringView {
    /// A view built by this library: a non-null pointer carries exactly `len` bytes.
    pub open spec fn wf(&self) -> bool {
        self.data matches Some(d) ==> d@.len() == self.len
    }

    pub open spec fn spec_is_null(&self) -> bool {
        self.data is None
    }

    /// A view of the bytes of `s`.
    pub fn from_str(s: &str) -> (r: Self)
        ensures
            r.wf(),
            r.data matches Some(d) && d@ == s.spec_bytes(),
            r.len == s.spec_bytes().len(),
    {
        let bytes = s.as_bytes_vec();
        let len = bytes.len();
        StringView { data: Some(bytes), len }
    }

    /// The view of the text of `s`, or the null view for `None`.
    pub fn from_option_str(s: Option<&str>) -> (r: Self)
        ensures
            r.wf(),
            s matches Some(t) ==> r.data matches Some(d) && d@ == t.spec_bytes() && r.len
                == t.spec_bytes().len(),
            s is None ==> r.data is None && r.len == 0,
    {
        match s {
            Some(t) => StringView::from_str(t),
            None => StringView::zero(),
        }
    }

    /// The null view.
    pub fn zero() -> (r: Self)
        ensures
            r.wf(),
            r.data is None,
            r.len == 0,
    {
        StringView { data: None, len: 0 }
    }

    pub fn is_null(&self) -> (r: bool)
        ensures
            r == self.spec_is_null(),
    {
        self.data.is_none()
    }

    /// The text of the view: an error for a null pointer, or for bytes that
    /// are not UTF-8.
    pub fn as_str(&self) -> (r: Result<&str, TextError>)
        ensures
            text_result_spec(self.data, r, "StringView pointer is null"@),
    {
        text_of(&self.data, "StringView pointer is null")
    }

    /// The text of the view, each invalid UTF-8 sequence replaced by
    /// U+FFFD; empty for a null pointer.
    pub fn as_string_lossy(&self) -> (r: String)
        ensures
            r@ == lossy_text(self.data),
    {
        lossy_text_of(&self.data)
    }
}

/// Why the bytes behind a pointer are not text.
pub enum TextError {
    /// The pointer is null; the message names the kind of value.
    NullPointer(String),
    /// The bytes are not UTF-8.
    InvalidUtf8,
}

/// What reading bytes (or a null pointer) as text gives: the decoded text
/// for valid UTF-8, an error otherwise.
pub open spec fn text_result_spec(
    data: Option<Vec<u8>>,
    r: Result<&str, TextError>,
    null_message: Seq<char>,
) -> bool {
    match data {
        None => r matches Err(TextError::NullPointer(m)) && m@ == null_message,
        Some(d) => if valid_utf8(d@) {
            r matches Ok(t) && t@ == decode_utf8(d@)
        } else {
            r matches Err(TextError::InvalidUtf8)
        },
    }
}

/// The lossy text of bytes (or of a null pointer, which reads as empty).
pub open spec fn lossy_text(data: Option<Vec<u8>>) -> Seq<char> {
    match data {
        None => Seq::empty(),
        Some(d) => lossy_decode(d@),
    }
}

/// The text that `String::from_utf8_lossy` makes of bytes: what they encode
/// when they are UTF-8; otherwise the text with each invalid sequence
/// replaced by U+FFFD.
pub open spec fn lossy_decode(bytes: Seq<u8>) -> Seq<char> {
    if valid_utf8(bytes) {
        decode_utf8(bytes)
    } else {
        utf8_lossy(bytes)
    }
}

/// The text that `String::from_utf8_lossy` makes of bytes that are not UTF-8.
pub uninterp spec fn utf8_lossy(bytes: Seq<u8>) -> Seq<char>;

/// `std::str::from_utf8`, with its error dropped: by its documentation it
/// succeeds exactly on valid UTF-8, and then the text is what the bytes encode.
#[verifier::external_body]
fn str_from_utf8(bytes: &[u8]) -> (r: Option<&str>)
    ensures
        r is Some <==> valid_utf8(bytes@),
        r matches Some(t) ==> t@ == decode_utf8(bytes@),
{
    std::str::from_utf8(bytes).ok()
}

/// `String::from_utf8_lossy`, made owned: by its documentation valid UTF-8
/// comes back as the text it encodes; for other bytes the result is named
/// `utf8_lossy`.
#[verifier::external_body]
fn string_from_utf8_lossy(bytes: &[u8]) -> (r: String)
    ensures
        r@ == (if valid_utf8(bytes@) {
            decode_utf8(bytes@)
        } else {
            utf8_lossy(bytes@)
        }),
{
    String::from_utf8_lossy(bytes).into_owned()
}

fn text_of<'a>(data: &'a Option<Vec<u8>>, null_message: &str) -> (r: Result<&'a str, TextError>)
    ensures
        text_result_spec(*data, r, null_message@),
{
    match data {
        None => Err(TextError::NullPointer(null_message.to_owned())),
        Some(d) => match str_from_utf8(d.as_slice()) {
            Some(t) => Ok(t),
            None => Err(TextError::InvalidUtf8),
        },
    }
}

fn lossy_text_of(data: &Option<Vec<u8>>) -> (r: String)
    ensures
        r@ == lossy_text(*data),
{
    match data {
        None => String::new(),
        Some(d) => string_from_utf8_lossy(d.as_slice()),
    }
}

/// A string handed to C, which C gives back to be freed: the bytes of the
/// text, or a null pointer.
pub struct OwnedString {
    pub data: Option<Vec<u8>>,
    pub len: usize,
}

impl OwnedString {
    pub open spec fn wf(&self) -> bool {
        self.data matches Some(d) ==> d@.len() == self.len
    }

    pub open spec fn spec_is_null(&self) -> bool {
        self.data is None
    }

    /// The bytes of `s`, handed over.
    pub fn from_string(s: String) -> (r: Self)
        ensures
            r.wf(),
            r.data matches Some(d) && d@ == encode_utf8(s@),
            r.len == encode_utf8(s@).len(),
    {
        let bytes = s.as_str().as_bytes_vec();
        let len = bytes.len();
        OwnedString { data: Some(bytes), len }
    }

    /// The null string.
    pub fn zero() -> (r: Self)
        ensures
            r.wf(),
            r.data is None,
            r.len == 0,
    {
        OwnedString { data: None, len: 0 }
    }

    pub fn is_null(&self) -> (r: bool)
        ensures
            r == self.spec_is_null(),
    {
        self.data.is_none()
    }

    /// The text of the string: an error for a null pointer, or for bytes
    /// that are not UTF-8.
    pub fn as_str(&self) -> (r: Result<&str, TextError>)
        ensures
            text_result_spec(self.data, r, "OwnedString pointer is null"@),
    {
        text_of(&self.data, "OwnedString pointer is null")
    }

    /// The text of the string, each invalid UTF-8 sequence replaced by
    /// U+FFFD; empty for a null pointer.
    pub fn as_string_lossy(&self) -> (r: String)
        ensures
            r@ == lossy_text(self.data),
    {
        lossy_text_of(&self.data)
    }
}

/// An array of owned strings handed to C, or a null pointer.
pub struct OwnedStringArray {
    pub items: Option<Vec<OwnedString>>,
    pub len: usize,
}

impl OwnedStringArray {
    pub open spec fn wf(&self) -> bool {
        self.items matches Some(v) ==> v@.len() == self.len
    }

    pub open spec fn spec_is_null(&self) -> bool {
        self.items is None
    }

    /// The given strings, handed over.
    pub fn from_vec(values: Vec<OwnedString>) -> (r: Self)
        ensures
            r.wf(),
            r.items == Some(values),
            r.len == values@.len(),
    {
        let len = values.len();
        OwnedStringArray { items: Some(values), len }
    }

    /// The null array.
    pub fn zero() -> (r: Self)
        ensures
            r.wf(),
            r.items is None,
            r.len == 0,
    {
        OwnedStringArray { items: None, len: 0 }
    }

    pub fn is_null(&self) -> (r: bool)
        ensures
            r == self.spec_is_null(),
    {
        self.items.is_none()
    }
}

/// The names under which the C interface knows these types.
pub type FfiStringView = StringView;

pub type FfiOwnedString = OwnedString;

pub type FfiOwnedStringArray = OwnedStringArray;

} // verus!
