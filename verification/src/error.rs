//! The error of every fallible operation: a message for the administrator, and
//! what lies beneath it.
use vstd::prelude::*;

use crate::text::{copy_texts, join, joined, lemma_texts_push, texts};

verus! {

/// What an error says: its message, and the causes beneath it, the nearest
/// first.
#[verifier::ext_equal]
pub struct Fault {
    pub message: Seq<char>,
    pub causes: Seq<Seq<char>>,
}

impl Fault {
    /// The message and the causes.
    pub open spec fn chain(self) -> Seq<Seq<char>> {
        seq![self.message] + self.causes
    }

    /// The message and the causes in one line, with a colon before each cause.
    pub open spec fn line(self) -> Seq<char> {
        join(self.chain(), ": "@)
    }
}

/// A fault without a cause.
pub open spec fn plain(message: Seq<char>) -> Fault {
    Fault { message, causes: Seq::empty() }
}

/// A fault with one cause.
pub open spec fn caused(message: Seq<char>, cause: Seq<char>) -> Fault {
    Fault { message, causes: seq![cause] }
}

/// A fault on top of another.
pub open spec fn on_top(message: Seq<char>, beneath: Fault) -> Fault {
    Fault { message, causes: beneath.chain() }
}

/// What a specification may give for an error: a fault, or the message of one
/// without a cause.
pub trait Faulty: Sized {
    spec fn fault(self) -> Fault;
}

impl Faulty for Fault {
    open spec fn fault(self) -> Fault {
        self
    }
}

impl Faulty for Seq<char> {
    open spec fn fault(self) -> Fault {
        plain(self)
    }
}

#[derive(Debug)]
pub struct Error {
    message: String,
    causes: Vec<String>,
}

impl View for Error {
    type V = Fault;

    closed spec fn view(&self) -> Fault {
        Fault { message: self.message@, causes: texts(self.causes@) }
    }
}

impl Error {
    pub fn new(message: String) -> (res: Self)
        ensures
            res@ == plain(message@),
    {
        let causes: Vec<String> = Vec::new();
        assert(texts(causes@) =~= Seq::<Seq<char>>::empty());
        Error { message, causes }
    }

    /// An error with a cause.
    pub fn with_cause(message: String, cause: String) -> (res: Self)
        ensures
            res@ == caused(message@, cause@),
    {
        let mut causes: Vec<String> = Vec::new();
        causes.push(cause);
        assert(texts(causes@) =~= seq![cause@]);
        Error { message, causes }
    }

    /// An error on top of another.
    pub fn on_top_of(message: String, beneath: &Error) -> (res: Self)
        ensures
            res@ == on_top(message@, beneath@),
    {
        Error { message, causes: beneath.chain() }
    }

    pub fn message(&self) -> (res: &str)
        ensures
            res@ == self@.message,
    {
        self.message.as_str()
    }

    /// The causes, the nearest first.
    pub fn causes(&self) -> (res: Vec<String>)
        ensures
            texts(res@) == self@.causes,
    {
        copy_texts(&self.causes)
    }

    /// The message and the causes.
    pub fn chain(&self) -> (res: Vec<String>)
        ensures
            texts(res@) == self@.chain(),
    {
        let mut chain: Vec<String> = Vec::new();
        chain.push(self.message.clone());
        let mut i: usize = 0;
        assert(texts(chain@) =~= seq![self.message@] + texts(self.causes@).take(0));
        while i < self.causes.len()
            invariant
                i <= self.causes@.len(),
                texts(chain@) == seq![self.message@] + texts(self.causes@).take(i as int),
            decreases self.causes.len() - i,
        {
            let cause = self.causes[i].clone();
            proof {
                lemma_texts_push(chain@, cause);
                assert(seq![self.message@] + texts(self.causes@).take(i + 1) =~= (
                seq![self.message@] + texts(self.causes@).take(i as int)).push(cause@));
            }
            chain.push(cause);
            i += 1;
        }
        assert(texts(self.causes@).take(i as int) =~= texts(self.causes@));
        chain
    }

    /// The message and the causes in one line, with a colon before each cause.
    pub fn explanation(&self) -> (res: String)
        ensures
            res@ == self@.line(),
    {
        joined(&self.chain(), ": ")
    }
}

/// A result and the fault that a specification finds: success where there is
/// none, and otherwise that fault.
pub open spec fn reports<E: Faulty>(res: Result<(), Error>, fault: Option<E>) -> bool {
    match (res, fault) {
        (Ok(_), None) => true,
        (Err(e), Some(fault)) => e@ == fault.fault(),
        _ => false,
    }
}

/// A number or a fault, as a specification gives it.
pub open spec fn gives<E: Faulty>(res: Result<i64, Error>, expected: Result<int, E>) -> bool {
    match (res, expected) {
        (Ok(value), Ok(number)) => value == number,
        (Err(e), Err(fault)) => e@ == fault.fault(),
        _ => false,
    }
}

/// A plain value or a fault, as a specification gives it.
pub open spec fn tells<T, E: Faulty>(res: Result<T, Error>, expected: Result<T, E>) -> bool {
    match (res, expected) {
        (Ok(value), Ok(other)) => value == other,
        (Err(e), Err(fault)) => e@ == fault.fault(),
        _ => false,
    }
}

/// A value or a fault, as a specification gives it.
pub open spec fn yields<T: View, E: Faulty>(res: Result<T, Error>, expected: Result<T::V, E>) -> bool {
    match (res, expected) {
        (Ok(value), Ok(model)) => value@ == model,
        (Err(e), Err(fault)) => e@ == fault.fault(),
        _ => false,
    }
}

/// A list or a fault, as a specification gives it.
pub open spec fn lists<T: View, E: Faulty>(
    res: Result<Vec<T>, Error>,
    expected: Result<Seq<T::V>, E>,
) -> bool {
    match (res, expected) {
        (Ok(values), Ok(models)) => crate::sort::views(values@) == models,
        (Err(e), Err(fault)) => e@ == fault.fault(),
        _ => false,
    }
}

/// An error with a message.
pub fn error(message: &str) -> (res: Error)
    ensures
        res@ == plain(message@),
{
    Error::new(message.to_owned())
}

} // verus!
