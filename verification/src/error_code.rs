use vstd::prelude::*;
use vstd::std_specs::convert::FromSpecImpl;
use vstd::string::StrSliceExecFns;

verus! {

/// The characters of a string slice.
pub fn chars_of(s: &str) -> (v: Vec<char>)
    ensures
        v@ == s@,
{
    let n = s.unicode_len();
    let mut v: Vec<char> = Vec::new();
    let mut k: usize = 0;
    while k < n
        invariant
            n == s@.len(),
            k <= n,
            v@ == s@.take(k as int),
        decreases n - k,
    {
        v.push(s.get_char(k));
        proof {
            assert(s@.take(k + 1) =~= s@.take(k as int).push(s@[k as int]));
        }
        k = k + 1;
    }
    proof {
        assert(s@.take(k as int) =~= s@);
    }
    v
}

/// Whether two strings hold the same characters.
pub fn same_text(a: &str, b: &str) -> (r: bool)
    ensures
        r == (a@ == b@),
{
    let x = chars_of(a);
    let y = chars_of(b);
    if x.len() != y.len() {
        return false;
    }
    let mut k: usize = 0;
    while k < x.len()
        invariant
            x@ == a@,
            y@ == b@,
            x@.len() == y@.len(),
            k <= x@.len(),
            forall|j: int| 0 <= j < k ==> x@[j] == y@[j],
        decreases x@.len() - k,
    {
        if x[k] != y[k] {
            return false;
        }
        k = k + 1;
    }
    proof {
        assert(x@ =~= y@);
    }
    true
}

/// `pat` occurs in `text` as a contiguous run of characters.
pub open spec fn contains_seq(text: Seq<char>, pat: Seq<char>) -> bool {
    exists|i: int| 0 <= i && i + pat.len() <= text.len() && #[trigger] text.subrange(i, i + pat.len()) == pat
}

fn matches_at(text: &Vec<char>, pat: &Vec<char>, i: usize) -> (r: bool)
    requires
        i + pat@.len() <= text@.len(),
    ensures
        r == (text@.subrange(i as int, i + pat@.len()) == pat@),
{
    let tl = text.len();
    let mut j: usize = 0;
    while j < pat.len()
        invariant
            tl == text@.len(),
            i + pat@.len() <= text@.len(),
            j <= pat@.len(),
            forall|q: int| 0 <= q < j ==> text@[i + q] == pat@[q],
        decreases pat@.len() - j,
    {
        if text[i + j] != pat[j] {
            proof {
                assert(text@.subrange(i as int, i + pat@.len())[j as int] != pat@[j as int]);
            }
            return false;
        }
        j = j + 1;
    }
    proof {
        assert(text@.subrange(i as int, i + pat@.len()) =~= pat@);
    }
    true
}

/// Whether `pat` occurs in `text`.
pub fn contains_chars(text: &Vec<char>, pat: &Vec<char>) -> (r: bool)
    ensures
        r == contains_seq(text@, pat@),
{
    if pat.len() > text.len() {
        return false;
    }
    let last = text.len() - pat.len();
    let mut i: usize = 0;
    loop
        invariant
            last == text@.len() - pat@.len(),
            i <= last,
            forall|q: int| 0 <= q < i ==> #[trigger] text@.subrange(q, q + pat@.len()) != pat@,
        decreases last - i,
    {
        if matches_at(text, pat, i) {
            return true;
        }
        if i == last {
            return false;
        }
        i = i + 1;
    }
}

/// Whether the text of `s` contains `pat`.
pub fn str_contains(s: &str, pat: &str) -> (r: bool)
    ensures
        r == contains_seq(s@, pat@),
{
    let text = chars_of(s);
    let p = chars_of(pat);
    contains_chars(&text, &p)
}

/// The message that the GUI helper keeps for C to read after a failing call
/// (the thread's last error message).
pub struct LastErrorMessage {
    pub text: String,
}

/// What is kept of a message: the message itself when it can be a C string
/// (it holds no NUL character), and the empty string otherwise or when
/// there is none.
pub open spec fn stored_message(message: Option<Seq<char>>) -> Seq<char> {
    match message {
        Some(m) => if m.contains('\0') {
            Seq::empty()
        } else {
            m
        },
        None => Seq::empty(),
    }
}

fn has_nul(s: &str) -> (r: bool)
    ensures
        r == s@.contains('\0'),
{
    let v = chars_of(s);
    let mut k: usize = 0;
    while k < v.len()
        invariant
            v@ == s@,
            k <= v@.len(),
            forall|q: int| 0 <= q < k ==> v@[q] != '\0',
        decreases v@.len() - k,
    {
        if v[k] == '\0' {
            return true;
        }
        k = k + 1;
    }
    false
}

impl LastErrorMessage {
    pub fn new() -> (r: Self)
        ensures
            r.text@ == Seq::<char>::empty(),
    {
        LastErrorMessage { text: String::new() }
    }
}

/// The status code that every call of the GUI helper returns to C.
#[derive(Clone, Copy, Debug, PartialEq, Eq, Structural)]
pub enum WrapperErrorCode {
    Success,
    NullPtr,
    NotFound,
    Error,
    Panic,
}

/// A status with its message, as the GUI helper's calls build it.
pub enum IntoWrapperError {
    Success,
    NullPtr,
    NotFound(Option<String>),
    Error(Option<String>),
    Panic(Option<String>),
}

pub open spec fn opt_text(m: Option<&str>) -> Option<Seq<char>> {
    match m {
        Some(t) => Some(t@),
        None => None,
    }
}

pub open spec fn opt_string_text(m: Option<String>) -> Option<Seq<char>> {
    match m {
        Some(t) => Some(t@),
        None => None,
    }
}

impl WrapperErrorCode {
    /// Keeps `message` as the last error message (see `stored_message`).
    pub fn set_last_err_msg(slot: &mut LastErrorMessage, message: Option<&str>)
        ensures
            final(slot).text@ == stored_message(opt_text(message)),
    {
        match message {
            Some(m) => {
                if has_nul(m) {
                    slot.text = String::new();
                } else {
                    slot.text = m.to_owned();
                }
            },
            None => {
                slot.text = String::new();
            },
        }
    }

    pub fn ok(slot: &mut LastErrorMessage) -> (r: Self)
        ensures
            r == WrapperErrorCode::Success,
            final(slot).text@ == Seq::<char>::empty(),
    {
        Self::set_last_err_msg(slot, None);
        WrapperErrorCode::Success
    }

    pub fn null_ptr(slot: &mut LastErrorMessage) -> (r: Self)
        ensures
            r == WrapperErrorCode::NullPtr,
            final(slot).text@ == Seq::<char>::empty(),
    {
        proof {
            reveal_strlit("");
        }
        Self::set_last_err_msg(slot, Some(""));
        WrapperErrorCode::NullPtr
    }

    pub fn not_found(slot: &mut LastErrorMessage, message: Option<&str>) -> (r: Self)
        ensures
            r == WrapperErrorCode::NotFound,
            final(slot).text@ == stored_message(opt_text(message)),
    {
        Self::set_last_err_msg(slot, message);
        WrapperErrorCode::NotFound
    }

    pub fn error(slot: &mut LastErrorMessage, message: Option<&str>) -> (r: Self)
        ensures
            r == WrapperErrorCode::Error,
            final(slot).text@ == stored_message(opt_text(message)),
    {
        Self::set_last_err_msg(slot, message);
        WrapperErrorCode::Error
    }

    pub fn panic(slot: &mut LastErrorMessage, message: Option<&str>) -> (r: Self)
        ensures
            r == WrapperErrorCode::Panic,
            final(slot).text@ == stored_message(opt_text(message)),
    {
        Self::set_last_err_msg(slot, message);
        WrapperErrorCode::Panic
    }

    /// `Error` with the message when there is one, `Ok` otherwise.
    pub fn error_from_option(slot: &mut LastErrorMessage, message: Option<&str>) -> (r: Self)
        ensures
            r == if message is Some {
                WrapperErrorCode::Error
            } else {
                WrapperErrorCode::Success
            },
            final(slot).text@ == stored_message(opt_text(message)),
    {
        match message {
            Some(_) => WrapperErrorCode::error(slot, message),
            None => WrapperErrorCode::ok(slot),
        }
    }

    pub fn invalid_string_error(slot: &mut LastErrorMessage) -> (r: Self)
        ensures
            r == WrapperErrorCode::Error,
            final(slot).text@ == stored_message(Some("invalid string"@)),
    {
        Self::set_last_err_msg(slot, Some("invalid string"));
        WrapperErrorCode::Error
    }

    /// Classifies an error by the text of its message: "not found" or
    /// "NotFound" gives `NotFound`; else "null" or "NullPtr" gives `NullPtr`
    /// (with an empty message); else "panic" or "Panic" gives `Panic`; else
    /// `Error`. The message is kept as the last error message.
    pub fn from_message(slot: &mut LastErrorMessage, error_msg: &str) -> (r: Self)
        ensures
            r == classify_spec(error_msg@),
            final(slot).text@ == if r == WrapperErrorCode::NullPtr {
                Seq::<char>::empty()
            } else {
                stored_message(Some(error_msg@))
            },
    {
        if str_contains(error_msg, "not found") || str_contains(error_msg, "NotFound") {
            Self::not_found(slot, Some(error_msg))
        } else if str_contains(error_msg, "null") || str_contains(error_msg, "NullPtr") {
            Self::null_ptr(slot)
        } else if str_contains(error_msg, "panic") || str_contains(error_msg, "Panic") {
            Self::panic(slot, Some(error_msg))
        } else {
            Self::error(slot, Some(error_msg))
        }
    }

    /// The code for an `anyhow::Error`, classified by the text of its message
    /// (see `from_message`).
    pub fn from_anyhow(slot: &mut LastErrorMessage, err: anyhow::Error) -> (r: Self)
        ensures
            exists|msg: String|
                vstd::string::to_string_from_display_ensures::<anyhow::Error>(&err, msg) && r
                    == classify_spec(msg@) && final(slot).text@ == if r == WrapperErrorCode::NullPtr {
                    Seq::<char>::empty()
                } else {
                    stored_message(Some(msg@))
                },
    {
        let error_msg = err.to_string();
        let r = Self::from_message(slot, error_msg.as_str());
        proof {
            assert(r == classify_spec(error_msg@));
        }
        r
    }
}

/// The code that an error message is classified as.
pub open spec fn classify_spec(t: Seq<char>) -> WrapperErrorCode {
    if contains_seq(t, "not found"@) || contains_seq(t, "NotFound"@) {
        WrapperErrorCode::NotFound
    } else if contains_seq(t, "null"@) || contains_seq(t, "NullPtr"@) {
        WrapperErrorCode::NullPtr
    } else if contains_seq(t, "panic"@) || contains_seq(t, "Panic"@) {
        WrapperErrorCode::Panic
    } else {
        WrapperErrorCode::Error
    }
}

impl IntoWrapperError {
    /// The message this status carries, if any.
    pub open spec fn message_spec(&self) -> Option<Seq<char>> {
        match self {
            IntoWrapperError::Success => None,
            IntoWrapperError::NullPtr => None,
            IntoWrapperError::NotFound(m) => opt_string_text(*m),
            IntoWrapperError::Error(m) => opt_string_text(*m),
            IntoWrapperError::Panic(m) => opt_string_text(*m),
        }
    }

    /// Keeps this status's message as the last error message (none for
    /// `Ok` and `NullPtr`).
    pub fn set_last_err_msg(&self, slot: &mut LastErrorMessage)
        ensures
            final(slot).text@ == stored_message(self.message_spec()),
    {
        match self {
            IntoWrapperError::Success => WrapperErrorCode::set_last_err_msg(slot, None),
            IntoWrapperError::NullPtr => WrapperErrorCode::set_last_err_msg(slot, None),
            IntoWrapperError::NotFound(e) => WrapperErrorCode::set_last_err_msg(slot, opt_as_str(e)),
            IntoWrapperError::Error(e) => WrapperErrorCode::set_last_err_msg(slot, opt_as_str(e)),
            IntoWrapperError::Panic(e) => WrapperErrorCode::set_last_err_msg(slot, opt_as_str(e)),
        }
    }
}

fn opt_as_str(m: &Option<String>) -> (r: Option<&str>)
    ensures
        opt_text(r) == opt_string_text(*m),
{
    match m {
        Some(s) => Some(s.as_str()),
        None => None,
    }
}

/// The code of each status.
pub open spec fn code_of(e: IntoWrapperError) -> WrapperErrorCode {
    match e {
        IntoWrapperError::Success => WrapperErrorCode::Success,
        IntoWrapperError::NullPtr => WrapperErrorCode::NullPtr,
        IntoWrapperError::NotFound(_) => WrapperErrorCode::NotFound,
        IntoWrapperError::Error(_) => WrapperErrorCode::Error,
        IntoWrapperError::Panic(_) => WrapperErrorCode::Panic,
    }
}

impl From<IntoWrapperError> for WrapperErrorCode {
    fn from(e: IntoWrapperError) -> (r: Self) {
        match e {
            IntoWrapperError::Success => WrapperErrorCode::Success,
            IntoWrapperError::NullPtr => WrapperErrorCode::NullPtr,
            IntoWrapperError::NotFound(_) => WrapperErrorCode::NotFound,
            IntoWrapperError::Error(_) => WrapperErrorCode::Error,
            IntoWrapperError::Panic(_) => WrapperErrorCode::Panic,
        }
    }
}

impl FromSpecImpl<IntoWrapperError> for WrapperErrorCode {
    open spec fn obeys_from_spec() -> bool {
        true
    }

    open spec fn from_spec(e: IntoWrapperError) -> WrapperErrorCode {
        code_of(e)
    }
}

} // verus!
