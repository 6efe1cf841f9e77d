//! The connection and its handler dispatch protocol.
//!
//! A connection owns one parsed request, an optional application state and
//! an ordered chain of handlers. Serving tries each handler in registration
//! order; the first that accepts produces the response and may change the
//! state, and handlers that decline leave the state untouched. When every
//! handler declines, the connection synthesizes a generic "not found"
//! response with an empty body. Order is the entire routing mechanism:
//! when two handlers would both accept, the first listed wins.

use crate::message::ReqModel;
use crate::message::RespModel;
use crate::message::Request;
use crate::message::Response;
use crate::message::req_model_empty;
use crate::parse::parse_request;
use crate::tokens::status_not_found;
use crate::tokens::status_not_found_vec;
use vstd::prelude::*;

verus! {

/// The size of the one-shot read buffer: requests larger than this are
/// truncated before parsing.
pub const MAX_REQ_SIZE: usize = 256;

/// One step of the dispatch protocol. A handler inspects the request line
/// (and possibly headers and body) to decide applicability; if it declines
/// it returns nothing and leaves the state alone, and if it accepts it
/// returns a response with a non-empty status line and may update the
/// state. Both decisions are pure functions of the request and the state,
/// given by the two spec functions.
pub trait Handler<T: View>: Sized {
    /// Whether this handler applies to the given request.
    spec fn accepts(&self, req: ReqModel) -> bool;

    /// The response and successor state this handler produces when it
    /// applies, over the mathematical model of the state.
    spec fn reply(&self, req: ReqModel, state: Option<T::V>) -> (RespModel, Option<T::V>);

    /// Runs the handler on one request.
    fn handle(&self, req: &Request, state: &mut Option<T>) -> (r: Option<Response>)
        ensures
            (r is Some) == self.accepts(req@),
            r is None ==> *final(state) == *old(state),
            r matches Some(resp) ==> resp@ == self.reply(req@, view_opt(*old(state))).0 && view_opt(
                *final(state),
            ) == self.reply(req@, view_opt(*old(state))).1 && resp@.status.len() > 0,
    ;
}

/// The mounted state as a mathematical value.
pub open spec fn view_opt<T: View>(o: Option<T>) -> Option<T::V> {
    match o {
        Some(t) => Some(t@),
        None => None,
    }
}

/// The index of the first handler that accepts `req`, or the chain length
/// when every handler declines.
pub open spec fn first_match<T: View, H: Handler<T>>(hs: Seq<H>, req: ReqModel) -> int
    decreases hs.len(),
{
    if hs.len() == 0 {
        0
    } else if hs[0].accepts(req) {
        0
    } else {
        1 + first_match(hs.drop_first(), req)
    }
}

/// The model of the synthesized fallback response: a "not found" status
/// with no headers and an empty body.
pub open spec fn not_found_model() -> RespModel {
    RespModel { status: status_not_found(), headers: Seq::empty(), body: Seq::empty() }
}

/// What serving yields: the reply of the first accepting handler, or the
/// fallback with the state unchanged.
pub open spec fn served_response<T: View, H: Handler<T>>(
    hs: Seq<H>,
    req: ReqModel,
    state: Option<T::V>,
) -> (RespModel, Option<T::V>) {
    let k = first_match(hs, req);
    if k < hs.len() {
        hs[k].reply(req, state)
    } else {
        (not_found_model(), state)
    }
}

/// A handler that accepts, before which every handler declines, is the
/// first match.
pub proof fn lemma_first_match_found<T: View, H: Handler<T>>(hs: Seq<H>, req: ReqModel, i: int)
    requires
        0 <= i < hs.len(),
        hs[i].accepts(req),
        forall|j: int| 0 <= j < i ==> !(#[trigger] hs[j].accepts(req)),
    ensures
        first_match(hs, req) == i,
    decreases hs.len(),
{
    if i == 0 {
    } else {
        assert(!hs[0].accepts(req));
        assert(hs.drop_first()[i - 1] == hs[i]);
        assert(forall|j: int|
            0 <= j < i - 1 ==> hs.drop_first()[j] == hs[j + 1] && !(#[trigger] hs.drop_first()[j].accepts(
                req,
            )));
        lemma_first_match_found(hs.drop_first(), req, i - 1);
    }
}

/// When every handler declines, the first match is the chain length.
pub proof fn lemma_first_match_none<T: View, H: Handler<T>>(hs: Seq<H>, req: ReqModel)
    requires
        forall|j: int| 0 <= j < hs.len() ==> !(#[trigger] hs[j].accepts(req)),
    ensures
        first_match(hs, req) == hs.len(),
    decreases hs.len(),
{
    if hs.len() == 0 {
    } else {
        assert(!hs[0].accepts(req));
        assert(forall|j: int|
            0 <= j < hs.drop_first().len() ==> hs.drop_first()[j] == hs[j + 1] && !(
            #[trigger] hs.drop_first()[j].accepts(req)));
        lemma_first_match_none(hs.drop_first(), req);
    }
}

/// Dispatch ordering law: when the handlers before `i` all decline and
/// handler `i` accepts, serving returns exactly handler `i`'s reply — in
/// particular, the declining handlers produce no observable state change.
pub proof fn lemma_dispatch_first_match<T: View, H: Handler<T>>(
    hs: Seq<H>,
    req: ReqModel,
    state: Option<T::V>,
    i: int,
)
    requires
        0 <= i < hs.len(),
        hs[i].accepts(req),
        forall|j: int| 0 <= j < i ==> !(#[trigger] hs[j].accepts(req)),
    ensures
        served_response(hs, req, state) == hs[i].reply(req, state),
{
    lemma_first_match_found(hs, req, i);
}

/// Fallback law: when every handler declines, serving yields the
/// "not found" response, whose body is empty, and leaves the state as it
/// was.
pub proof fn lemma_dispatch_fallback<T: View, H: Handler<T>>(hs: Seq<H>, req: ReqModel, state: Option<T::V>)
    requires
        forall|j: int| 0 <= j < hs.len() ==> !(#[trigger] hs[j].accepts(req)),
    ensures
        served_response(hs, req, state).0 == not_found_model(),
        served_response(hs, req, state).1 == state,
        served_response(hs, req, state).0.body.len() == 0,
{
    lemma_first_match_none(hs, req);
}

/// One accepted connection: the parsed request, the optional application
/// state, and the handler chain. It serves exactly one request/response
/// pair; transitions are strictly forward and a connection is never
/// reused.
pub struct Connection<T, H> {
    /// The request parsed from the one-shot read.
    pub req: Request,
    /// The mounted application state, if any.
    pub state: Option<T>,
    /// The handler chain, in registration order.
    pub handlers: Vec<H>,
}

impl<T: View, H: Handler<T>> Connection<T, H> {
    /// Builds a connection from the raw bytes of the one-shot read. A
    /// buffer that does not parse falls back to the empty request — which
    /// makes every handler decline and the fallback response answer — so
    /// construction is never fatal.
    pub fn new(bytes: &[u8]) -> (c: Connection<T, H>)
        ensures
            c.req@ == (match parse_request(bytes@) {
                Ok(m) => m,
                Err(_) => req_model_empty(),
            }),
            c.state is None,
            c.handlers@ == Seq::<H>::empty(),
    {
        let req = match Request::from_utf8(bytes) {
            Ok(req) => req,
            Err(_) => Request::empty(),
        };
        let c = Connection { req, state: None, handlers: Vec::new() };
        proof {
            assert(c.handlers@ =~= Seq::<H>::empty());
        }
        c
    }

    /// Appends handlers to the chain; their order is the routing order.
    pub fn mount_handlers(&mut self, handlers: Vec<H>)
        ensures
            final(self).handlers@ == old(self).handlers@ + handlers@,
            final(self).req == old(self).req,
            final(self).state == old(self).state,
    {
        let mut more = handlers;
        self.handlers.append(&mut more);
    }

    /// Attaches the shared application state. A connection with no mounted
    /// state still serves; its handlers treat the state as not configured.
    pub fn mount_state(&mut self, state: T)
        ensures
            final(self).state == Some(state),
            final(self).req == old(self).req,
            final(self).handlers@ == old(self).handlers@,
    {
        self.state = Some(state);
    }

    /// Runs the handler chain in order on the parsed request. The first
    /// handler that accepts wins and dispatch stops there; when all
    /// decline, the fallback response is returned. The returned response
    /// always carries a non-empty status line.
    pub fn serve(&mut self) -> (res: Response)
        ensures
            ({
                let served = served_response(
                    old(self).handlers@,
                    old(self).req@,
                    view_opt(old(self).state),
                );
                res@ == served.0 && view_opt(final(self).state) == served.1
            }),
            final(self).req == old(self).req,
            final(self).handlers@ == old(self).handlers@,
            res@.status.len() > 0,
    {
        let ghost hs = self.handlers@;
        let ghost req0 = self.req@;
        let ghost st0 = self.state;
        let mut i: usize = 0;
        while i < self.handlers.len()
            invariant
                0 <= i <= hs.len(),
                hs == old(self).handlers@,
                req0 == old(self).req@,
                st0 == old(self).state,
                self.handlers@ == hs,
                self.req == old(self).req,
                self.state == st0,
                forall|j: int| 0 <= j < i ==> !(#[trigger] hs[j].accepts(req0)),
            decreases hs.len() - i,
        {
            let h = &self.handlers[i];
            let r = h.handle(&self.req, &mut self.state);
            match r {
                Some(resp) => {
                    proof {
                        lemma_first_match_found(hs, req0, i as int);
                    }
                    return resp;
                },
                None => {},
            }
            i = i + 1;
        }
        proof {
            lemma_first_match_none(hs, req0);
        }
        let res = Response {
            status_line: status_not_found_vec(),
            headers: Vec::new(),
            body: Vec::new(),
        };
        proof {
            assert(res@ =~~= not_found_model());
        }
        res
    }
}

} // verus!
