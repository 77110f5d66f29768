//! Request dispatch: the method table, and what a command's call answers
//! from its parameters and from its handler's result.
use vstd::prelude::*;

verus! {

/// A handler's domain failure: a message and an optional structured payload.
pub struct ServerError<E> {
    pub message: String,
    pub data: Option<E>,
}

/// A command handler: a method that answers every request with one response.
pub struct ServerCommand<T>(pub T);

/// The protocol error classes that dispatch produces itself.
#[derive(Debug, Clone, Copy, PartialEq, Eq, Structural)]
pub enum ErrorKind {
    MethodNotFound,
    InvalidParams,
    InternalError,
}

impl ErrorKind {
    /// The standard JSON-RPC code of the class.
    pub fn code(&self) -> (r: i64)
        ensures
            r == match self {
                ErrorKind::MethodNotFound => -32601i64,
                ErrorKind::InvalidParams => -32602i64,
                ErrorKind::InternalError => -32603i64,
            },
    {
        match self {
            ErrorKind::MethodNotFound => -32601,
            ErrorKind::InvalidParams => -32602,
            ErrorKind::InternalError => -32603,
        }
    }
}

/// A protocol error object: class, message and optional payload.
pub struct RpcError<D> {
    pub kind: ErrorKind,
    pub message: String,
    pub data: Option<D>,
}

/// What a command does with the parameters of a request.
pub enum CallStep<P, D> {
    /// Run the handler on the parameters.
    Execute(P),
    /// Answer at once with this error.
    Reject(RpcError<D>),
}

pub open spec fn invalid_params_prefix() -> Seq<char> {
    "Invalid params: "@
}

pub open spec fn method_not_found_prefix() -> Seq<char> {
    "Method not found: "@
}

/// Relies on `String::push_str`: appends the characters of `t`.
#[verifier::external_body]
fn append_str(s: &mut String, t: &str)
    ensures
        final(s)@ == old(s)@ + t@,
{
    s.push_str(t)
}

/// The error for parameters that do not fit a method: it carries the
/// method's declared default payload as it is.
pub fn invalid_params_error<D>(params_text: &str, default_data: Option<D>) -> (r: RpcError<D>)
    ensures
        r.kind == ErrorKind::InvalidParams,
        r.message@ == invalid_params_prefix() + params_text@,
        r.data == default_data,
{
    proof {
        reveal_strlit("Invalid params: ");
    }
    let mut message = "Invalid params: ".to_owned();
    append_str(&mut message, params_text);
    RpcError { kind: ErrorKind::InvalidParams, message, data: default_data }
}

/// The error for a request whose method nobody registered.
pub fn method_not_found_error<D>(method: &str) -> (r: RpcError<D>)
    ensures
        r.kind == ErrorKind::MethodNotFound,
        r.message@ == method_not_found_prefix() + method@,
        r.data is None,
{
    proof {
        reveal_strlit("Method not found: ");
    }
    let mut message = "Method not found: ".to_owned();
    append_str(&mut message, method);
    RpcError { kind: ErrorKind::MethodNotFound, message, data: None }
}

/// A handler's result as the response carries it: output as it is, a domain
/// failure as an internal error with the failure's message and payload.
pub fn command_response<O, D>(result: Result<O, ServerError<D>>) -> (r: Result<O, RpcError<D>>)
    ensures
        result is Ok ==> r == Ok::<O, RpcError<D>>(result->Ok_0),
        result is Err ==> r is Err && r->Err_0.kind == ErrorKind::InternalError
            && r->Err_0.message == result->Err_0.message && r->Err_0.data == result->Err_0.data,
{
    match result {
        Ok(v) => Ok(v),
        Err(e) => Err(RpcError { kind: ErrorKind::InternalError, message: e.message, data: e.data }),
    }
}

impl<T> ServerCommand<T> {
    /// Decides a call from its parameters: `parsed` holds them read into the
    /// handler's parameter shape, or nothing where they are not an object of
    /// that shape; `params_text` describes them, for the error.
    pub fn prepare<P, D>(&self, parsed: Option<P>, params_text: &str, default_data: Option<D>) -> (r:
        CallStep<P, D>)
        ensures
            parsed is Some ==> r == CallStep::<P, D>::Execute(parsed->0),
            parsed is None ==> r is Reject && r->Reject_0.kind == ErrorKind::InvalidParams
                && r->Reject_0.message@ == invalid_params_prefix() + params_text@
                && r->Reject_0.data == default_data,
    {
        match parsed {
            Some(p) => CallStep::Execute(p),
            None => CallStep::Reject(invalid_params_error(params_text, default_data)),
        }
    }
}

/// Whether a method answers (a command) or not (a notification).
#[derive(Debug, Clone, Copy, PartialEq, Eq, Structural)]
pub enum HandlerKind {
    Command,
    Notification,
}

/// Registering a name a second time is a configuration error.
#[derive(Debug, Clone, Copy, PartialEq, Eq, Structural)]
pub enum RegisterError {
    DuplicateMethod,
}

/// The first kind recorded for `name` in `entries`.
pub open spec fn lookup(entries: Seq<(Seq<char>, HandlerKind)>, name: Seq<char>) -> Option<
    HandlerKind,
>
    decreases entries.len(),
{
    if entries.len() == 0 {
        None
    } else if entries[0].0 == name {
        Some(entries[0].1)
    } else {
        lookup(entries.drop_first(), name)
    }
}

/// Method names, each with the kind of handler registered under it.
pub struct MethodTable {
    entries: Vec<(String, HandlerKind)>,
}

impl View for MethodTable {
    type V = Seq<(Seq<char>, HandlerKind)>;

    closed spec fn view(&self) -> Seq<(Seq<char>, HandlerKind)> {
        self.entries@.map_values(|e: (String, HandlerKind)| (e.0@, e.1))
    }
}

proof fn lemma_lookup_push(
    entries: Seq<(Seq<char>, HandlerKind)>,
    e: (Seq<char>, HandlerKind),
    name: Seq<char>,
)
    requires
        lookup(entries, e.0) is None,
    ensures
        lookup(entries.push(e), name) == if name == e.0 {
            Some(e.1)
        } else {
            lookup(entries, name)
        },
    decreases entries.len(),
{
    if entries.len() > 0 {
        assert(entries.push(e).drop_first() =~= entries.drop_first().push(e));
        assert(entries.push(e)[0] == entries[0]);
        assert(entries[0].0 != e.0);
        lemma_lookup_push(entries.drop_first(), e, name);
    } else {
        let one = entries.push(e);
        assert(one.drop_first() =~= Seq::<(Seq<char>, HandlerKind)>::empty());
        assert(one[0] == e);
        assert(lookup(one.drop_first(), name) is None);
    }
}

impl MethodTable {
    /// The handler kind registered under `name`, if any.
    pub open spec fn kind_of(&self, name: Seq<char>) -> Option<HandlerKind> {
        lookup(self@, name)
    }

    pub fn new() -> (r: MethodTable)
        ensures
            forall|name: Seq<char>| r.kind_of(name) is None,
    {
        MethodTable { entries: Vec::new() }
    }

    /// Registers `name`; a name already taken keeps its handler and is refused.
    pub fn register(&mut self, name: String, kind: HandlerKind) -> (r: Result<(), RegisterError>)
        ensures
            old(self).kind_of(name@) is Some ==> r == Err::<(), RegisterError>(
                RegisterError::DuplicateMethod,
            ) && final(self)@ == old(self)@,
            old(self).kind_of(name@) is None ==> r is Ok && forall|n: Seq<char>|
                #[trigger] final(self).kind_of(n) == if n == name@ {
                    Some(kind)
                } else {
                    old(self).kind_of(n)
                },
    {
        if self.route(name.as_str()).is_some() {
            return Err(RegisterError::DuplicateMethod);
        }
        let ghost before = self@;
        self.entries.push((name, kind));
        proof {
            assert(self@ =~= before.push((name@, kind)));
            assert forall|n: Seq<char>| #[trigger] self.kind_of(n) == if n == name@ {
                Some(kind)
            } else {
                lookup(before, n)
            } by {
                lemma_lookup_push(before, (name@, kind), n);
            }
        }
        Ok(())
    }

    /// The handler kind for a request's method; an unknown method is
    /// answered with a method-not-found error.
    pub fn resolve<D>(&self, method: &str) -> (r: Result<HandlerKind, RpcError<D>>)
        ensures
            self.kind_of(method@) is Some ==> r == Ok::<HandlerKind, RpcError<D>>(
                self.kind_of(method@)->0,
            ),
            self.kind_of(method@) is None ==> r is Err && r->Err_0.kind == ErrorKind::MethodNotFound
                && r->Err_0.message@ == method_not_found_prefix() + method@ && r->Err_0.data is None,
    {
        match self.route(method) {
            Some(kind) => Ok(kind),
            None => Err(method_not_found_error(method)),
        }
    }

    /// Where a request for `method` goes: the kind registered under it, or
    /// nothing for an unknown method.
    pub fn route(&self, method: &str) -> (r: Option<HandlerKind>)
        ensures
            r == self.kind_of(method@),
    {
        let wanted = method.to_owned();
        let mut i: usize = 0;
        assert(self@.subrange(0, self@.len() as int) =~= self@);
        while i < self.entries.len()
            invariant
                i <= self.entries@.len(),
                wanted@ == method@,
                self@.len() == self.entries@.len(),
                lookup(self@, method@) == lookup(self@.subrange(i as int, self@.len() as int), method@),
            decreases self.entries@.len() - i,
        {
            let ghost rest = self@.subrange(i as int, self@.len() as int);
            assert(rest[0] == self@[i as int]);
            assert(self@[i as int] == (self.entries@[i as int].0@, self.entries@[i as int].1));
            if self.entries[i].0 == wanted {
                return Some(self.entries[i].1);
            }
            assert(rest.drop_first() =~= self@.subrange(i + 1, self@.len() as int));
            i += 1;
        }
        None
    }
}

} // verus!
