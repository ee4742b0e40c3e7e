//! The handler set: which handler answers which method.
//!
//! A handler set is assembled before the server starts and read, never changed,
//! while it runs. Its model is a map from method identifiers to handlers,
//! together with the flag that says whether registration is still open.

use vstd::prelude::*;
use vstd::string::*;

verus! {

/// Why a handler was not registered.
#[derive(Clone, Copy, Debug, PartialEq, Eq, Structural)]
pub enum RegistrationError {
    /// The method already has a handler.
    DuplicateMethod,
    /// The server has started: the set takes no more handlers.
    RegistrationClosed,
}

/// A failure that a handler reports for one call: a code and a message.
#[derive(Clone, Debug, PartialEq, Eq)]
pub struct Failure {
    pub code: u32,
    pub message: String,
}

/// Why a call brought no response payload.
#[derive(Clone, Debug, PartialEq, Eq)]
pub enum CallError {
    /// No handler is registered for the method.
    MethodNotFound,
    /// The handler of the method reported a failure.
    Handler(Failure),
}

struct Registration<H> {
    method: String,
    handler: H,
}

/// The handlers of a server, by method identifier.
pub struct HandlerSet<H> {
    entries: Vec<Registration<H>>,
    open: bool,
}

/// The map that a list of registrations stands for.
spec fn table_of<H>(entries: Seq<Registration<H>>) -> Map<Seq<char>, H>
    decreases entries.len(),
{
    if entries.len() == 0 {
        Map::empty()
    } else {
        table_of(entries.drop_last()).insert(entries.last().method@, entries.last().handler)
    }
}

/// What `register` answers on a set with the given table and flag.
pub open spec fn registration_result<H>(
    table: Map<Seq<char>, H>,
    open: bool,
    method: Seq<char>,
) -> Result<(), RegistrationError> {
    if !open {
        Err(RegistrationError::RegistrationClosed)
    } else if table.dom().contains(method) {
        Err(RegistrationError::DuplicateMethod)
    } else {
        Ok(())
    }
}

/// The table after `register`: one entry more where it succeeds, else the same.
pub open spec fn registered<H>(
    table: Map<Seq<char>, H>,
    open: bool,
    method: Seq<char>,
    handler: H,
) -> Map<Seq<char>, H> {
    if registration_result(table, open, method) is Ok {
        table.insert(method, handler)
    } else {
        table
    }
}

/// `result` is what a call of `method` with `payload` may bring on `table`:
/// what the handler of the method returns for the payload, unchanged, or
/// `MethodNotFound` where the method has no handler.
pub open spec fn dispatched<H: Fn(Vec<u8>) -> Result<Vec<u8>, Failure>>(
    table: Map<Seq<char>, H>,
    method: Seq<char>,
    payload: Vec<u8>,
    result: Result<Vec<u8>, CallError>,
) -> bool {
    if table.dom().contains(method) {
        match result {
            Ok(response) => call_ensures(
                table[method],
                (payload,),
                Ok::<Vec<u8>, Failure>(response),
            ),
            Err(CallError::Handler(failure)) => call_ensures(
                table[method],
                (payload,),
                Err::<Vec<u8>, Failure>(failure),
            ),
            Err(CallError::MethodNotFound) => false,
        }
    } else {
        result == Err::<Vec<u8>, CallError>(CallError::MethodNotFound)
    }
}

impl<H> View for HandlerSet<H> {
    type V = Map<Seq<char>, H>;

    closed spec fn view(&self) -> Map<Seq<char>, H> {
        table_of(self.entries@)
    }
}

impl<H> HandlerSet<H> {
    /// Whether the set still takes handlers.
    pub closed spec fn is_open(&self) -> bool {
        self.open
    }

    /// An empty set that takes handlers.
    pub fn new() -> (r: Self)
        ensures
            r@ == Map::<Seq<char>, H>::empty(),
            r.is_open(),
    {
        HandlerSet { entries: Vec::new(), open: true }
    }

    /// Whether the set still takes handlers.
    pub fn accepts_registrations(&self) -> (r: bool)
        ensures
            r == self.is_open(),
    {
        self.open
    }

    /// Ends registration. The handlers stay as they are.
    pub fn close(&mut self)
        ensures
            !final(self).is_open(),
            final(self)@ == old(self)@,
    {
        self.open = false;
    }

    fn position(&self, method: &str) -> (r: Option<usize>)
        ensures
            match r {
                Some(i) => i < self.entries.len() && self@.dom().contains(method@)
                    && self@[method@] == self.entries[i as int].handler,
                None => !self@.dom().contains(method@),
            },
    {
        let key = String::from_str(method);
        let mut i = self.entries.len();
        assert(self.entries@.subrange(0, i as int) =~= self.entries@);
        while i > 0
            invariant
                i <= self.entries.len(),
                key@ == method@,
                table_of(self.entries@).dom().contains(method@) == table_of(
                    self.entries@.subrange(0, i as int),
                ).dom().contains(method@),
                table_of(self.entries@).dom().contains(method@) ==> table_of(self.entries@)[method@]
                    == table_of(self.entries@.subrange(0, i as int))[method@],
            decreases i,
        {
            proof {
                let p = self.entries@.subrange(0, i as int);
                assert(p.drop_last() =~= self.entries@.subrange(0, i - 1));
                assert(p.last() == self.entries@[i - 1]);
            }
            if self.entries[i - 1].method == key {
                return Some(i - 1);
            }
            i -= 1;
        }
        None
    }

    /// Whether the method has a handler.
    pub fn is_registered(&self, method: &str) -> (r: bool)
        ensures
            r == self@.dom().contains(method@),
    {
        match self.position(method) {
            Some(_) => true,
            None => false,
        }
    }

    /// Registers `handler` for `method`.
    ///
    /// Fails with `RegistrationClosed` once registration has ended, and with
    /// `DuplicateMethod` where the method already has a handler; the set is then
    /// unchanged, so the earlier handler stays.
    pub fn register(&mut self, method: &str, handler: H) -> (r: Result<(), RegistrationError>)
        ensures
            r == registration_result(old(self)@, old(self).is_open(), method@),
            final(self)@ == registered(old(self)@, old(self).is_open(), method@, handler),
            final(self).is_open() == old(self).is_open(),
    {
        if !self.open {
            return Err(RegistrationError::RegistrationClosed);
        }
        match self.position(method) {
            Some(_) => Err(RegistrationError::DuplicateMethod),
            None => {
                let entry = Registration { method: String::from_str(method), handler };
                assert(self.entries@.push(entry).drop_last() =~= self.entries@);
                self.entries.push(entry);
                Ok(())
            },
        }
    }

    /// Hands `payload` to the handler of `method` and returns what it returns.
    ///
    /// Only the handler of `method` is known to accept the payload, so no other
    /// handler is called; where the method has none, no handler is called at all.
    pub fn dispatch(&self, method: &str, payload: Vec<u8>) -> (r: Result<Vec<u8>, CallError>) where
        H: Fn(Vec<u8>) -> Result<Vec<u8>, Failure>,

        requires
            self@.dom().contains(method@) ==> call_requires(self@[method@], (payload,)),
        ensures
            dispatched(self@, method@, payload, r),
    {
        match self.position(method) {
            None => Err(CallError::MethodNotFound),
            Some(i) => match (self.entries[i].handler)(payload) {
                Ok(response) => Ok(response),
                Err(failure) => Err(CallError::Handler(failure)),
            },
        }
    }
}

/// Registering a method a second time fails with `DuplicateMethod`, and the
/// handler of the first registration stays.
pub proof fn lemma_first_registration_stays<H>(
    table: Map<Seq<char>, H>,
    method: Seq<char>,
    first: H,
    second: H,
)
    requires
        registration_result(table, true, method) is Ok,
    ensures
        ({
            let once = registered(table, true, method, first);
            &&& registration_result(once, true, method) == Err::<(), RegistrationError>(
                RegistrationError::DuplicateMethod,
            )
            &&& registered(once, true, method, second) == once
            &&& once.dom().contains(method)
            &&& once[method] == first
        }),
{
}

/// Registration touches no other method: what was registered stays registered,
/// with the same handler.
pub proof fn lemma_registration_keeps_others<H>(
    table: Map<Seq<char>, H>,
    open: bool,
    method: Seq<char>,
    handler: H,
    other: Seq<char>,
)
    requires
        other != method,
    ensures
        registered(table, open, method, handler).dom().contains(other) == table.dom().contains(
            other,
        ),
        table.dom().contains(other) ==> registered(table, open, method, handler)[other]
            == table[other],
{
}

/// A method without a handler is answered with `MethodNotFound`, whatever the payload.
pub proof fn lemma_unregistered_is_not_found<H: Fn(Vec<u8>) -> Result<Vec<u8>, Failure>>(
    table: Map<Seq<char>, H>,
    method: Seq<char>,
    payload: Vec<u8>,
    result: Result<Vec<u8>, CallError>,
)
    requires
        !table.dom().contains(method),
        dispatched(table, method, payload, result),
    ensures
        result == Err::<Vec<u8>, CallError>(CallError::MethodNotFound),
{
}

/// A method with a handler is never answered with `MethodNotFound`: the answer
/// is one that its handler gives for the payload.
pub proof fn lemma_registered_is_handled<H: Fn(Vec<u8>) -> Result<Vec<u8>, Failure>>(
    table: Map<Seq<char>, H>,
    method: Seq<char>,
    payload: Vec<u8>,
    result: Result<Vec<u8>, CallError>,
)
    requires
        table.dom().contains(method),
        dispatched(table, method, payload, result),
    ensures
        result != Err::<Vec<u8>, CallError>(CallError::MethodNotFound),
        result matches Ok(response) ==> call_ensures(
            table[method],
            (payload,),
            Ok::<Vec<u8>, Failure>(response),
        ),
        result matches Err(CallError::Handler(failure)) ==> call_ensures(
            table[method],
            (payload,),
            Err::<Vec<u8>, Failure>(failure),
        ),
{
}

} // verus!
