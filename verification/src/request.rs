//! What a handler asks of a request: its query, the page it wants, whether
//! it wants JSON, and the responses that answer it.

use vstd::prelude::*;
use vstd::string::*;
use vstd::utf8::encode_utf8;
use crate::errors::{human, CargoError, CargoResult};
use crate::http::{Request, Response, ResponseView};
use crate::json::{can_respond, json_reply_view, json_response, parsed_json, printed_json, respondable};
use crate::text::{contains_text, decimal, decimal_text, number_of, occurs_in, parse_number};
use crate::text_map::TextMap;

verus! {

/// A name and a value, as a query string pairs them.
pub type PairView = (Seq<char>, Seq<char>);

/// The pairs that `form_urlencoded::parse` yields for a byte string in
/// the `application/x-www-form-urlencoded` syntax, in the order of the
/// input, with names and values decoded.
pub uninterp spec fn form_pairs(input: Seq<u8>) -> Seq<PairView>;

/// Parses a byte string with `form_urlencoded::parse` and collects the
/// pairs that its iterator yields, in their order, as owned strings.
#[verifier::external_body]
fn parse_form(input: &[u8]) -> (pairs: Vec<(String, String)>)
    ensures
        pairs.deep_view() == form_pairs(input@),
{
    url::form_urlencoded::parse(input).into_owned().collect()
}

/// The map that a list of pairs stands for. Where a name occurs more
/// than once, its last value wins.
pub open spec fn pairs_map(pairs: Seq<PairView>) -> Map<Seq<char>, Seq<char>>
    decreases pairs.len(),
{
    if pairs.len() == 0 {
        Map::empty()
    } else {
        pairs_map(pairs.drop_last()).insert(pairs.last().0, pairs.last().1)
    }
}

/// Collects pairs into a map. Where a name occurs more than once, its
/// last value wins.
pub fn query_of(pairs: &Vec<(String, String)>) -> (query: TextMap<String>)
    ensures
        query@ == pairs_map(pairs.deep_view()),
{
    let mut query: TextMap<String> = TextMap::new();
    let mut i: usize = 0;
    while i < pairs.len()
        invariant
            i <= pairs.len(),
            query@ == pairs_map(pairs.deep_view().take(i as int)),
        decreases pairs.len() - i,
    {
        proof {
            let views = pairs.deep_view();
            assert(views.take(i + 1).drop_last() =~= views.take(i as int));
            assert(views.take(i + 1).last() == (pairs@[i as int].0@, pairs@[i as int].1@));
        }
        query.insert(pairs[i].0.clone(), pairs[i].1.clone());
        i += 1;
    }
    assert(pairs.deep_view().take(i as int) =~= pairs.deep_view());
    query
}

/// The bytes of a request's query string; none where it has no query
/// string.
pub open spec fn query_bytes(req: Request) -> Seq<u8> {
    match req.query_string {
        Some(query) => encode_utf8(query@),
        None => Seq::empty(),
    }
}

/// The query of a request as a map.
pub open spec fn query_view(req: Request) -> Map<Seq<char>, Seq<char>> {
    pairs_map(form_pairs(query_bytes(req)))
}

/// The number under `name` in a query, or `fallback` where the name is
/// missing or its value is no number.
pub open spec fn number_or(query: Map<Seq<char>, Seq<char>>, name: Seq<char>, fallback: nat) -> nat {
    if query.dom().contains(name) {
        match number_of(query[name]) {
            Some(n) => n,
            None => fallback,
        }
    } else {
        fallback
    }
}

/// The page that a query asks for, counted from 1. A page 0 is no
/// page, and the first page takes its place.
pub open spec fn page_of(query: Map<Seq<char>, Seq<char>>) -> nat {
    if number_or(query, "page"@, 1) >= 1 {
        number_or(query, "page"@, 1)
    } else {
        1
    }
}

/// The number of items per page that a query asks for.
pub open spec fn per_page_of(query: Map<Seq<char>, Seq<char>>, default: nat) -> nat {
    number_or(query, "per_page"@, default)
}

/// The message of the error for a page that is too large.
pub open spec fn too_many_message(max: nat) -> Seq<char> {
    "cannot request more than "@ + decimal(max) + " items"@
}

/// Whether the page that a query asks for can be computed: unless the
/// page size is over the maximum, the offset and the count fit the
/// integers they are returned in.
pub open spec fn page_in_reach(query: Map<Seq<char>, Seq<char>>, default: nat, max: nat) -> bool {
    per_page_of(query, default) <= max ==> {
        &&& per_page_of(query, default) <= i64::MAX
        &&& (page_of(query) - 1) * per_page_of(query, default) <= i64::MAX
    }
}

/// What [`paginate`] returns for a query: the error for a page size over
/// the maximum, else the offset of the page and the count of its items.
pub open spec fn pagination_of(query: Map<Seq<char>, Seq<char>>, default: nat, max: nat) -> Result<
    (int, int),
    Seq<char>,
> {
    if per_page_of(query, default) > max {
        Err(too_many_message(max))
    } else {
        Ok(
            (
                (page_of(query) - 1) * per_page_of(query, default),
                per_page_of(query, default) as int,
            ),
        )
    }
}

/// A page that is computed never holds more items than the maximum, and
/// its offset is that of the pages before it: a page size over the
/// maximum is an error and is never cut down.
pub proof fn lemma_count_within_max(query: Map<Seq<char>, Seq<char>>, default: nat, max: nat)
    ensures
        page_of(query) >= 1,
        match pagination_of(query, default, max) {
            Ok((offset, count)) => 0 <= count <= max && count == per_page_of(query, default)
                && offset == (page_of(query) - 1) * count && offset >= 0,
            Err(text) => per_page_of(query, default) > max && text == too_many_message(max),
        },
{
    assert((page_of(query) - 1) * per_page_of(query, default) >= 0) by (nonlinear_arith)
        requires
            page_of(query) >= 1,
    ;
}

/// Whether a result is the one that [`pagination_of`] describes.
pub open spec fn is_pagination(
    result: CargoResult<(i64, i64)>,
    query: Map<Seq<char>, Seq<char>>,
    default: nat,
    max: nat,
) -> bool {
    match pagination_of(query, default, max) {
        Ok((offset, count)) => result matches Ok((o, c)) && o == offset && c == count,
        Err(text) => result matches Err(CargoError::Human { message, response: None })
            && message@ == text,
    }
}

/// Reads the number under `name`, or gives `fallback`.
fn read_number(query: &TextMap<String>, name: &str, fallback: usize) -> (number: usize)
    ensures
        number == number_or(query@, name@, fallback as nat),
{
    match query.get(name) {
        Some(text) => match parse_number(text.as_str()) {
            Some(n) => n,
            None => fallback,
        },
        None => fallback,
    }
}

/// Reads the page that a query asks for.
fn read_page(query: &TextMap<String>) -> (page: usize)
    ensures
        page == page_of(query@),
        page >= 1,
{
    let page = read_number(query, "page", 1);
    if page >= 1 {
        page
    } else {
        1
    }
}

/// Whether the page that a query asks for can be computed.
pub fn in_reach(query: &TextMap<String>, default: usize, max: usize) -> (yes: bool)
    ensures
        yes == page_in_reach(query@, default as nat, max as nat),
{
    let page = read_page(query);
    let limit = read_number(query, "per_page", default);
    if limit > max {
        return true;
    }
    let offset: u128 = product(page - 1, limit);
    limit as u128 <= i64::MAX as u128 && offset <= i64::MAX as u128
}

/// The product of two numbers, which always fits 128 bits.
fn product(a: usize, b: usize) -> (p: u128)
    ensures
        p == a * b,
{
    assert(a * b <= 0xffff_ffff_ffff_ffff * 0xffff_ffff_ffff_ffff) by (nonlinear_arith)
        requires
            a <= 0xffff_ffff_ffff_ffff,
            b <= 0xffff_ffff_ffff_ffff,
    ;
    (a as u128) * (b as u128)
}

/// The offset and count of the page that a query asks for. `page`
/// counts from 1 and defaults to 1; `per_page` defaults to `default`. A
/// value that is missing or no number gives way to its default, and so
/// does a page 0. A page size over `max` is an error, the only one, and
/// is never cut down to `max`. The offset is never negative.
pub fn paginate(query: &TextMap<String>, default: usize, max: usize) -> (result: CargoResult<
    (i64, i64),
>)
    requires
        page_in_reach(query@, default as nat, max as nat),
    ensures
        is_pagination(result, query@, default as nat, max as nat),
{
    let page = read_page(query);
    let limit = read_number(query, "per_page", default);
    if limit > max {
        let mut message = String::from_str("cannot request more than ");
        message.append(decimal_text(max).as_str());
        message.append(" items");
        return Err(human(message));
    }
    let offset: u128 = product(page - 1, limit);
    Ok((offset as i64, limit as i64))
}

/// The response that sends the caller to another URL: status 302, the
/// URL as the one value of the `Location` header, and an empty body.
pub open spec fn redirect_view(url: Seq<char>) -> ResponseView {
    ResponseView {
        code: 302,
        reason: "Found"@,
        headers: Map::empty().insert("Location"@, seq![url]),
        body: Seq::empty(),
    }
}

/// Whether one of the values of the `Accept` header holds the text
/// `json`. The case of the letters counts.
pub open spec fn accepts_json(headers: Map<Seq<char>, Seq<Seq<char>>>) -> bool {
    headers.dom().contains("Accept"@) && exists|i: int|
        0 <= i < headers["Accept"@].len() && occurs_in(#[trigger] headers["Accept"@][i], "json"@)
}

/// The operations that a handler has on a request.
pub trait RequestUtils: Sized {
    /// The request that the operations read.
    spec fn request(self) -> Request;

    /// The response that sends the caller to `url`.
    fn redirect(self, url: String) -> (response: Response)
        ensures
            response@ == redirect_view(url@),
            response@.well_formed(),
    ;

    /// The response for a value encoded as JSON text, with every key
    /// `krate` renamed to `crate`.
    fn json(self, encoded: &str) -> (response: Response)
        requires
            respondable(encoded@),
        ensures
            response@ == json_reply_view(printed_json(parsed_json(encoded@).unwrap().renamed())),
            response@.well_formed(),
    ;

    /// The same response, or `None` where the text holds no value that
    /// can be answered with.
    fn try_json(self, encoded: &str) -> (response: Option<Response>)
        ensures
            match response {
                Some(r) => respondable(encoded@) && r@ == json_reply_view(
                    printed_json(parsed_json(encoded@).unwrap().renamed()),
                ) && r@.well_formed(),
                None => !respondable(encoded@),
            },
    ;

    /// The query string as a map from names to values. Where a name
    /// occurs more than once, its last value wins.
    fn query(self) -> (query: TextMap<String>)
        ensures
            query@ == query_view(self.request()),
    ;

    /// Whether the caller asks for JSON: the `Accept` header is present
    /// and one of its values holds the text `json`.
    fn wants_json(self) -> (wanted: bool)
        ensures
            wanted == accepts_json(self.request().headers@),
    ;

    /// The offset and count of the page that the query asks for, as
    /// [`paginate`] computes them.
    fn pagination(self, default: usize, max: usize) -> (result: CargoResult<(i64, i64)>)
        requires
            page_in_reach(query_view(self.request()), default as nat, max as nat),
        ensures
            is_pagination(result, query_view(self.request()), default as nat, max as nat),
    ;

    /// The same result, or `None` where the page that the query asks for
    /// cannot be computed.
    fn checked_pagination(self, default: usize, max: usize) -> (result: Option<
        CargoResult<(i64, i64)>,
    >)
        ensures
            match result {
                Some(r) => page_in_reach(query_view(self.request()), default as nat, max as nat)
                    && is_pagination(r, query_view(self.request()), default as nat, max as nat),
                None => !page_in_reach(query_view(self.request()), default as nat, max as nat),
            },
    ;
}

impl<'a> RequestUtils for &'a Request {
    open spec fn request(self) -> Request {
        *self
    }

    fn redirect(self, url: String) -> (response: Response) {
        let ghost target = url@;
        let mut headers: TextMap<Vec<String>> = TextMap::new();
        let mut location: Vec<String> = Vec::new();
        location.push(url);
        assert(location.deep_view() =~= seq![target]);
        headers.insert("Location".to_owned(), location);
        let response = Response { status: (302, "Found"), headers, body: Vec::new() };
        assert(response@.well_formed()) by {
            assert(location.deep_view().len() == 1);
        }
        response
    }

    fn json(self, encoded: &str) -> (response: Response) {
        json_response(encoded)
    }

    fn try_json(self, encoded: &str) -> (response: Option<Response>) {
        if can_respond(encoded) {
            Some(self.json(encoded))
        } else {
            None
        }
    }

    fn query(self) -> (query: TextMap<String>) {
        let pairs = match &self.query_string {
            Some(text) => parse_form(text.as_str().as_bytes()),
            None => {
                let nothing: Vec<u8> = Vec::new();
                parse_form(nothing.as_slice())
            },
        };
        query_of(&pairs)
    }

    fn wants_json(self) -> (wanted: bool) {
        match self.headers.get("Accept") {
            Some(values) => {
                let ghost views = values.deep_view();
                assert(views == self.headers@["Accept"@]);
                let mut i: usize = 0;
                while i < values.len()
                    invariant
                        i <= values.len(),
                        views == values.deep_view(),
                        self.headers@.dom().contains("Accept"@),
                        views == self.headers@["Accept"@],
                        forall|j: int| 0 <= j < i ==> !occurs_in(#[trigger] views[j], "json"@),
                    decreases values.len() - i,
                {
                    assert(views[i as int] == values@[i as int]@);
                    if contains_text(values[i].as_str(), "json") {
                        return true;
                    }
                    i += 1;
                }
                false
            },
            None => false,
        }
    }

    fn pagination(self, default: usize, max: usize) -> (result: CargoResult<(i64, i64)>) {
        let query = self.query();
        paginate(&query, default, max)
    }

    fn checked_pagination(self, default: usize, max: usize) -> (result: Option<
        CargoResult<(i64, i64)>,
    >) {
        let query = self.query();
        if in_reach(&query, default, max) {
            Some(self.pagination(default, max))
        } else {
            None
        }
    }
}

} // verus!
