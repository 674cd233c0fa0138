//! Handlers, and the wrappers that turn a domain handler into one: the
//! error-adapting handler, the mount of a sub-application, and the
//! fallback for requests that no route matches.

use std::sync::Arc;
use vstd::prelude::*;
use vstd::pervasive::unreached;
use crate::errors::{not_found_response, not_found_view, std_error, CargoResult, FatalError};
use crate::http::{same_method, Request, Response};
use crate::request::{pairs_map, PairView};

verus! {

/// What the transport layer gets back from a handler.
pub type Outcome = Result<Response, FatalError>;

/// A handler as the transport layer calls it.
pub trait Handler {
    /// The requests that the handler may be called with: all of them,
    /// unless the handler says otherwise.
    open spec fn accepts(&self, req: Request) -> bool {
        true
    }

    /// Whether a call that found the request as `before` may leave it as
    /// `after` and return `outcome`. A handler that says nothing of
    /// itself may do anything.
    open spec fn handles(&self, before: Request, after: Request, outcome: Outcome) -> bool {
        true
    }

    /// Answers a request.
    fn call(&self, req: &mut Request) -> (outcome: Outcome)
        requires
            self.accepts(*old(req)),
        ensures
            self.handles(*old(req), *final(req), outcome),
    ;
}

/// Application logic that answers a request with a response or with a
/// domain error.
pub trait DomainHandler {
    /// The requests that the handler may be called with: all of them,
    /// unless the handler says otherwise.
    open spec fn accepts(&self, req: Request) -> bool {
        true
    }

    /// Whether a call that found the request as `before` may leave it as
    /// `after` and return `result`. A handler that says nothing of itself
    /// may do anything.
    open spec fn answers(&self, before: Request, after: Request, result: CargoResult<Response>) -> bool {
        true
    }

    /// Answers a request.
    fn handle(&self, req: &mut Request) -> (result: CargoResult<Response>)
        requires
            self.accepts(*old(req)),
        ensures
            self.answers(*old(req), *final(req), result),
    ;
}

/// What becomes of the result of a domain handler. A response is
/// returned as it is. A human error that brings a response gives that
/// response. Every other error is escalated as fatal.
pub open spec fn adapted(result: CargoResult<Response>) -> Outcome {
    match result {
        Ok(response) => Ok(response),
        Err(error) => match error.carried_response() {
            Some(response) => Ok(response),
            None => Err(FatalError { error }),
        },
    }
}

/// Turns the result of a domain handler into what the transport layer
/// gets back. The commit hook of the request is invoked once where the
/// handler succeeded, and not at all where it failed.
pub fn adapt(req: &mut Request, result: CargoResult<Response>) -> (outcome: Outcome)
    ensures
        outcome == adapted(result),
        result is Ok ==> *final(req) == old(req).committed(),
        result is Err ==> *final(req) == *old(req),
{
    match result {
        Ok(response) => {
            req.commit();
            Ok(response)
        },
        Err(error) => match error.response() {
            Ok(response) => Ok(response),
            Err(error) => Err(std_error(error)),
        },
    }
}

/// The error-adapting handler: a domain handler made into a handler.
pub struct C<F>(pub F);

impl<F: DomainHandler> Handler for C<F> {
    open spec fn accepts(&self, req: Request) -> bool {
        self.0.accepts(req)
    }

    open spec fn handles(&self, before: Request, after: Request, outcome: Outcome) -> bool {
        exists|left: Request, result: CargoResult<Response>|
            {
                &&& #[trigger] self.0.answers(before, left, result)
                &&& outcome == adapted(result)
                &&& after == if result is Ok {
                    left.committed()
                } else {
                    left
                }
            }
    }

    fn call(&self, req: &mut Request) -> (outcome: Outcome) {
        let result = self.0.handle(req);
        let ghost left = *req;
        let outcome = adapt(req, result);
        assert(self.0.answers(*old(req), left, result));
        outcome
    }
}

/// The error-adapting handler invokes the commit hook once, after the
/// domain handler, where that handler succeeded, and never where it
/// failed: then the request is as the domain handler left it.
pub proof fn lemma_commit_follows_success<F: DomainHandler>(
    adapter: C<F>,
    before: Request,
    after: Request,
    outcome: Outcome,
)
    requires
        adapter.handles(before, after, outcome),
    ensures
        exists|left: Request, result: CargoResult<Response>|
            {
                &&& #[trigger] adapter.0.answers(before, left, result)
                &&& result matches Ok(response) ==> outcome == Ok::<Response, FatalError>(response)
                    && after == left.committed() && (left.commits < u64::MAX ==> after.commits
                    == left.commits + 1)
                &&& result is Err ==> after == left
                &&& outcome is Err ==> result is Err
            },
{
    let (left, result) = choose|left: Request, result: CargoResult<Response>|
        {
            &&& #[trigger] adapter.0.answers(before, left, result)
            &&& outcome == adapted(result)
            &&& after == if result is Ok {
                left.committed()
            } else {
                left
            }
        };
    assert(adapter.0.answers(before, left, result));
}

/// The name of the path parameter that a mount reads.
pub open spec fn path_param() -> Seq<char> {
    "path"@
}

/// The mount of a sub-application: the inner handler sees the path that
/// an outer route captured under the name `path`, and the request is
/// otherwise the one that came in. After the call the request has the
/// path and the method that it came with.
pub struct R<H>(pub Arc<H>);

impl<H: Handler> Handler for R<H> {
    open spec fn accepts(&self, req: Request) -> bool {
        &&& req.params@.dom().contains(path_param())
        &&& forall|path: String|
            path@ == req.params@[path_param()] ==> #[trigger] self.0.accepts(req.with_path(path))
    }

    open spec fn handles(&self, before: Request, after: Request, outcome: Outcome) -> bool {
        exists|path: String, left: Request|
            {
                &&& before.params@.dom().contains(path_param())
                &&& path@ == before.params@[path_param()]
                &&& #[trigger] self.0.handles(before.with_path(path), left, outcome)
                &&& after == left.with_path(before.path).with_method(before.method)
            }
    }

    fn call(&self, req: &mut Request) -> (outcome: Outcome) {
        let method = same_method(&req.method);
        let mut path = match req.params.get("path") {
            Some(captured) => captured.clone(),
            None => unreached(),
        };
        let ghost inner_path = path;
        core::mem::swap(&mut req.path, &mut path);
        assert(*req == old(req).with_path(inner_path));
        let outcome = self.0.call(req);
        let ghost left = *req;
        core::mem::swap(&mut req.path, &mut path);
        req.method = method;
        assert(self.0.handles(old(req).with_path(inner_path), left, outcome));
        assert(*req == left.with_path(old(req).path).with_method(old(req).method));
        outcome
    }
}

/// What a mount shows to the handler inside it: the captured path in
/// place of the path of the request, and the method, query string,
/// headers, parameters and body of the request as they came in. After the
/// call the request has its own path and its own method, and is otherwise
/// as the handler inside left it.
pub proof fn lemma_mount_replaces_the_path_alone<H: Handler>(
    mount: R<H>,
    before: Request,
    after: Request,
    outcome: Outcome,
)
    requires
        mount.handles(before, after, outcome),
    ensures
        after.path == before.path,
        after.method == before.method,
        exists|seen: Request, left: Request|
            {
                &&& #[trigger] mount.0.handles(seen, left, outcome)
                &&& seen.path@ == before.params@[path_param()]
                &&& seen.method == before.method
                &&& seen.query_string == before.query_string
                &&& seen.headers == before.headers
                &&& seen.params == before.params
                &&& seen.body == before.body
                &&& seen.commits == before.commits
                &&& after == left.with_path(before.path).with_method(before.method)
            },
{
    let (path, left) = choose|path: String, left: Request|
        {
            &&& before.params@.dom().contains(path_param())
            &&& path@ == before.params@[path_param()]
            &&& #[trigger] mount.0.handles(before.with_path(path), left, outcome)
            &&& after == left.with_path(before.path).with_method(before.method)
        };
    assert(mount.0.handles(before.with_path(path), left, outcome));
}

/// The parameters of a request after a route has been recognized: the
/// ones it had, with each recognized parameter added in its order. A
/// recognized parameter replaces one of the same name.
pub open spec fn merged(
    params: Map<Seq<char>, Seq<char>>,
    recognized: Seq<PairView>,
) -> Map<Seq<char>, Seq<char>>
    decreases recognized.len(),
{
    if recognized.len() == 0 {
        params
    } else {
        merged(params, recognized.drop_last()).insert(recognized.last().0, recognized.last().1)
    }
}

/// Merging keeps every parameter that the request had, unless a
/// recognized parameter has its name, and holds every recognized
/// parameter's name.
pub proof fn lemma_merged_keeps_params(
    params: Map<Seq<char>, Seq<char>>,
    recognized: Seq<PairView>,
    name: Seq<char>,
)
    ensures
        params.dom().contains(name) ==> merged(params, recognized).dom().contains(name),
        pairs_map(recognized).dom().contains(name) ==> merged(params, recognized).dom().contains(
            name,
        ) && merged(params, recognized)[name] == pairs_map(recognized)[name],
        !pairs_map(recognized).dom().contains(name) && params.dom().contains(name) ==> merged(
            params,
            recognized,
        )[name] == params[name],
        merged(params, recognized).dom().contains(name) ==> params.dom().contains(name)
            || pairs_map(recognized).dom().contains(name),
    decreases recognized.len(),
{
    if recognized.len() > 0 {
        lemma_merged_keeps_params(params, recognized.drop_last(), name);
    }
}

/// What the fallback decides for a request: the route's handler is to
/// be called, or the request is answered at once.
#[derive(Debug)]
pub enum Routed {
    /// A route matched. The request now carries its parameters, and the
    /// matched handler is to get it.
    Matched,
    /// No route matched. This is the response.
    Unmatched(Response),
}

/// Decides what becomes of a request once the router has looked at its
/// method and path. `recognized` holds the parameters that the matched
/// route captured, or `None` where no route matched.
///
/// On a match the parameters are merged into those of the request, and
/// none that it had from an outer mount is lost unless a new one has its
/// name. Without a match the answer is the fixed 404 response, and the
/// request is left alone.
pub fn route(req: &mut Request, recognized: Option<&Vec<(String, String)>>) -> (routed: Routed)
    ensures
        match recognized {
            Some(captured) => {
                &&& routed is Matched
                &&& final(req).params@ == merged(old(req).params@, captured.deep_view())
                &&& *final(req) == (Request { params: final(req).params, ..*old(req) })
            },
            None => {
                &&& routed matches Routed::Unmatched(response)
                &&& response@ == not_found_view()
                &&& *final(req) == *old(req)
            },
        },
{
    match recognized {
        Some(captured) => {
            let mut i: usize = 0;
            while i < captured.len()
                invariant
                    i <= captured.len(),
                    req.params@ == merged(old(req).params@, captured.deep_view().take(i as int)),
                    *req == (Request { params: req.params, ..*old(req) }),
                decreases captured.len() - i,
            {
                proof {
                    let views = captured.deep_view();
                    assert(views.take(i + 1).drop_last() =~= views.take(i as int));
                    assert(views.take(i + 1).last() == (captured@[i as int].0@, captured@[i as int].1@));
                }
                req.params.insert(captured[i].0.clone(), captured[i].1.clone());
                i += 1;
            }
            assert(captured.deep_view().take(i as int) =~= captured.deep_view());
            Routed::Matched
        },
        None => Routed::Unmatched(not_found_response()),
    }
}

} // verus!
