use vstd::prelude::*;
use vstd::utf8::encode_utf8;

use crate::ffi_string::{join_spec, join_strings, OwnedString};

verus! {

#[verifier::external_type_specification]
#[verifier::external_body]
pub struct ExAnyhowError(anyhow::Error);

/// `anyhow::Error::chain`, each error of it read as text with `Display`:
/// the error's own message first, then the message of each cause in turn.
/// Claimed: there is at least one message, the error's own, as the chain
/// starts with the error itself. The texts depend on the error value, which
/// is opaque here, so they are not stated.
#[verifier::external_body]
fn error_chain_messages(e: &anyhow::Error) -> (r: Vec<String>)
    ensures
        r@.len() >= 1,
{
    e.chain().map(|c| c.to_string()).collect()
}

/// The messages of an error and of its causes, outermost first.
pub struct ErrorChain {
    pub messages: Vec<String>,
}

/// The separator between the messages of a chain in its one-line text: `": "`.
pub open spec fn chain_separator() -> Seq<char> {
    seq![':', ' ']
}

/// The one-line text of a chain, as `{:#}` writes an `anyhow::Error`: the
/// messages joined with `": "`.
pub open spec fn chain_text(messages: Seq<Seq<char>>) -> Seq<char> {
    join_spec(messages, chain_separator())
}

/// `m` holds the one-line text of some chain of at least one message, as
/// the text of an `anyhow::Error` is.
pub open spec fn holds_chain_text(m: OwnedString) -> bool {
    exists|msgs: Seq<Seq<char>>| msgs.len() >= 1 && #[trigger] holds_text(m, chain_text(msgs))
}

impl ErrorChain {
    pub open spec fn messages_view(&self) -> Seq<Seq<char>> {
        self.messages@.map_values(|t: String| t@)
    }

    /// The chain of an `anyhow::Error`.
    pub fn of(e: &anyhow::Error) -> (r: Self)
        ensures
            r.messages@.len() >= 1,
    {
        ErrorChain { messages: error_chain_messages(e) }
    }

    /// The one-line text of the chain.
    pub fn text(&self) -> (r: String)
        ensures
            r@ == chain_text(self.messages_view()),
    {
        let sep = ": ";
        proof {
            reveal_strlit(": ");
            assert(sep@ =~= chain_separator());
        }
        join_strings(&self.messages, sep)
    }
}

/// An array handed to C, which C frees through the array itself.
pub struct FfiArray<T> {
    pub items: Vec<T>,
}

impl<T> FfiArray<T> {
    /// The array of the elements of `vec`, handed over.
    pub fn from_vec(vec: Vec<T>) -> (r: Self)
        ensures
            r.items == vec,
    {
        FfiArray { items: vec }
    }

    /// The array of clones of the elements of `slice`.
    pub fn from_slice(slice: &[T]) -> (r: Self) where T: Clone
        ensures
            r.items@.len() == slice@.len(),
            forall|i: int| 0 <= i < slice@.len() ==> cloned(slice@[i], #[trigger] r.items@[i]),
    {
        let mut items: Vec<T> = Vec::new();
        let mut k: usize = 0;
        while k < slice.len()
            invariant
                k <= slice@.len(),
                items@.len() == k,
                forall|i: int| 0 <= i < k ==> cloned(slice@[i], #[trigger] items@[i]),
            decreases slice@.len() - k,
        {
            items.push(slice[k].clone());
            k = k + 1;
        }
        FfiArray { items }
    }
}

/// A view of an array owned by C.
pub struct FfiArrayView<T> {
    pub items: Vec<T>,
}

/// The payload of an optional value handed to C.
pub enum FfiOptionUnion<T> {
    Present(T),
    Absent,
}

/// An optional value handed to C: a flag, and the value when the flag is set.
pub struct FfiOption<T> {
    pub has_value: bool,
    pub value: FfiOptionUnion<T>,
}

impl<T> FfiOption<T> {
    /// The flag agrees with the payload.
    pub open spec fn wf(&self) -> bool {
        self.has_value <==> self.value is Present
    }

    /// The option that this value stands for.
    pub open spec fn to_option(&self) -> Option<T> {
        match self.value {
            FfiOptionUnion::Present(v) => Some(v),
            FfiOptionUnion::Absent => None,
        }
    }

    pub fn some(val: T) -> (r: Self)
        ensures
            r.wf(),
            r.has_value,
            r.to_option() == Some(val),
    {
        FfiOption { has_value: true, value: FfiOptionUnion::Present(val) }
    }

    pub fn none() -> (r: Self)
        ensures
            r.wf(),
            !r.has_value,
            r.to_option() is None,
    {
        FfiOption { has_value: false, value: FfiOptionUnion::Absent }
    }

    pub fn from_option(opt: Option<T>) -> (r: Self)
        ensures
            r.wf(),
            r.has_value == opt is Some,
            r.to_option() == opt,
    {
        match opt {
            Some(v) => FfiOption::some(v),
            None => FfiOption::none(),
        }
    }
}

/// The payload of a result handed to C: the value, or the text of the error.
pub enum FfiResultUnion<T> {
    Value(T),
    Error(OwnedString),
}

/// A result handed to C: a flag, and the value or the error's text.
pub struct FfiResult<T> {
    pub is_ok: bool,
    pub value: FfiResultUnion<T>,
}

/// `msg` holds the UTF-8 bytes of `text`.
pub open spec fn holds_text(msg: OwnedString, text: Seq<char>) -> bool {
    &&& msg.wf()
    &&& msg.data matches Some(d) && d@ == encode_utf8(text)
}

impl<T> FfiResult<T> {
    /// The flag agrees with the payload.
    pub open spec fn wf(&self) -> bool {
        self.is_ok <==> self.value is Value
    }

    pub fn ok(val: T) -> (r: Self)
        ensures
            r.wf(),
            r.is_ok,
            r.value == FfiResultUnion::<T>::Value(val),
    {
        FfiResult { is_ok: true, value: FfiResultUnion::Value(val) }
    }

    /// A failure carrying the text of `e` with the chain of its causes
    /// (see `err_chain`): some chain of at least one message, joined.
    pub fn err(e: anyhow::Error) -> (r: Self)
        ensures
            r.wf(),
            !r.is_ok,
            r.value matches FfiResultUnion::Error(m) && holds_chain_text(m),
    {
        let chain = ErrorChain::of(&e);
        let r = FfiResult::err_chain(&chain);
        assert(r.value matches FfiResultUnion::Error(m) && holds_text(
            m,
            chain_text(chain.messages_view()),
        ));
        r
    }

    /// A failure carrying the one-line text of an error chain.
    pub fn err_chain(chain: &ErrorChain) -> (r: Self)
        ensures
            r.wf(),
            !r.is_ok,
            r.value matches FfiResultUnion::Error(m) && holds_text(m, chain_text(chain.messages_view())),
    {
        FfiResult { is_ok: false, value: FfiResultUnion::Error(OwnedString::from_string(chain.text())) }
    }

    /// A failure carrying the message of a panic.
    pub fn err_panic(message: String) -> (r: Self)
        ensures
            r.wf(),
            !r.is_ok,
            r.value matches FfiResultUnion::Error(m) && holds_text(m, message@),
    {
        FfiResult { is_ok: false, value: FfiResultUnion::Error(OwnedString::from_string(message)) }
    }

    pub fn from_result(r: Result<T, anyhow::Error>) -> (out: Self)
        ensures
            out.wf(),
            out.is_ok == r is Ok,
            r matches Ok(v) ==> out.value == FfiResultUnion::<T>::Value(v),
            r is Err ==> (out.value matches FfiResultUnion::Error(m) && holds_chain_text(m)),
    {
        match r {
            Ok(v) => FfiResult::ok(v),
            Err(e) => FfiResult::err(e),
        }
    }

    /// The outcome of a call whose error is given by its chain of messages.
    pub fn from_chain_result(r: Result<T, ErrorChain>) -> (out: Self)
        ensures
            out.wf(),
            out.is_ok == r is Ok,
            r matches Ok(v) ==> out.value == FfiResultUnion::<T>::Value(v),
            r matches Err(c) ==> out.value matches FfiResultUnion::Error(m) && holds_text(
                m,
                chain_text(c.messages_view()),
            ),
    {
        match r {
            Ok(v) => FfiResult::ok(v),
            Err(c) => FfiResult::err_chain(&c),
        }
    }

    /// The outcome of a call that may have panicked, the panic given by its message.
    pub fn from_panic_result(r: Result<T, String>) -> (out: Self)
        ensures
            out.wf(),
            out.is_ok == r is Ok,
            r matches Ok(v) ==> out.value == FfiResultUnion::<T>::Value(v),
            r matches Err(message) ==> out.value matches FfiResultUnion::Error(m) && holds_text(
                m,
                message@,
            ),
    {
        match r {
            Ok(v) => FfiResult::ok(v),
            Err(message) => FfiResult::err_panic(message),
        }
    }
}

/// A result without a value handed to C: a flag, and the error's text (a
/// null string on success).
pub struct FfiResultVoid {
    pub is_ok: bool,
    pub err: OwnedString,
}

impl FfiResultVoid {
    pub fn ok() -> (r: Self)
        ensures
            r.is_ok,
            r.err.wf(),
            r.err.data is None,
            r.err.len == 0,
    {
        FfiResultVoid { is_ok: true, err: OwnedString::zero() }
    }

    /// A failure carrying the text of `e` with the chain of its causes
    /// (see `err_chain`): some chain of at least one message, joined.
    pub fn err(e: anyhow::Error) -> (r: Self)
        ensures
            !r.is_ok,
            holds_chain_text(r.err),
    {
        let chain = ErrorChain::of(&e);
        let r = FfiResultVoid::err_chain(&chain);
        proof {
            assert(holds_text(r.err, chain_text(chain.messages_view())));
        }
        r
    }

    /// A failure carrying the one-line text of an error chain.
    pub fn err_chain(chain: &ErrorChain) -> (r: Self)
        ensures
            !r.is_ok,
            holds_text(r.err, chain_text(chain.messages_view())),
    {
        FfiResultVoid { is_ok: false, err: OwnedString::from_string(chain.text()) }
    }

    /// A failure carrying the message of a panic.
    pub fn err_panic(message: String) -> (r: Self)
        ensures
            !r.is_ok,
            holds_text(r.err, message@),
    {
        FfiResultVoid { is_ok: false, err: OwnedString::from_string(message) }
    }

    pub fn from_result(r: Result<(), anyhow::Error>) -> (out: Self)
        ensures
            out.is_ok == r is Ok,
            out.err.wf(),
            r is Ok ==> out.err.data is None,
            r is Err ==> holds_chain_text(out.err),
    {
        match r {
            Ok(_) => FfiResultVoid::ok(),
            Err(e) => FfiResultVoid::err(e),
        }
    }

    /// The outcome of a call whose error is given by its chain of messages.
    pub fn from_chain_result(r: Result<(), ErrorChain>) -> (out: Self)
        ensures
            out.is_ok == r is Ok,
            out.err.wf(),
            r is Ok ==> out.err.data is None,
            r matches Err(c) ==> holds_text(out.err, chain_text(c.messages_view())),
    {
        match r {
            Ok(_) => FfiResultVoid::ok(),
            Err(c) => FfiResultVoid::err_chain(&c),
        }
    }

    /// The outcome of a call that may have panicked, the panic given by its message.
    pub fn from_panic_result(r: Result<(), String>) -> (out: Self)
        ensures
            out.is_ok == r is Ok,
            out.err.wf(),
            r is Ok ==> out.err.data is None,
            r matches Err(message) ==> holds_text(out.err, message@),
    {
        match r {
            Ok(_) => FfiResultVoid::ok(),
            Err(message) => FfiResultVoid::err_panic(message),
        }
    }
}

} // verus!
