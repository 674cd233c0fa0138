//! JSON values and the key rename applied to every JSON response.

use vstd::prelude::*;
use vstd::string::*;
use vstd::utf8::encode_utf8;
use vstd::pervasive::unreached;
use rustc_serialize::json::Json as Parsed;
use crate::http::{Response, ResponseView};
use crate::json_laws::lemma_renamed_is_printable;
use crate::json_limits::{is_parseable, is_printable, parseable};
use crate::text::{decimal, decimal_text, same_text};
use crate::text_map::TextMap;

verus! {

/// A JSON value. An object is held as a list of its members; in a
/// well-formed value no object has two members with the same key.
/// A real number is held as its decimal text, the shortest that reads back
/// as the same number; a value in which every real number is such a text
/// is printable.
#[derive(Debug)]
pub enum Json {
    Null,
    Boolean(bool),
    I64(i64),
    U64(u64),
    Real(String),
    String(String),
    Array(Vec<Json>),
    Object(Vec<(String, Json)>),
}

/// The mathematical value of a [`Json`].
pub enum JsonView {
    Null,
    Boolean(bool),
    I64(i64),
    U64(u64),
    Real(Seq<char>),
    String(Seq<char>),
    Array(Seq<JsonView>),
    Object(Seq<MemberView>),
}

/// The mathematical value of a [`Json`]: strings and lists become
/// sequences, everything else stays as it is.
pub open spec fn json_view(json: Json) -> JsonView
    decreases json,
{
    match json {
        Json::Null => JsonView::Null,
        Json::Boolean(b) => JsonView::Boolean(b),
        Json::I64(n) => JsonView::I64(n),
        Json::U64(n) => JsonView::U64(n),
        Json::Real(text) => JsonView::Real(text@),
        Json::String(s) => JsonView::String(s@),
        Json::Array(items) => JsonView::Array(
            Seq::new(
                items@.len(),
                |i: int|
                    if 0 <= i < items@.len() {
                        json_view(items@[i])
                    } else {
                        JsonView::Null
                    },
            ),
        ),
        Json::Object(members) => JsonView::Object(
            Seq::new(
                members@.len(),
                |i: int|
                    if 0 <= i < members@.len() {
                        (members@[i].0@, json_view(members@[i].1))
                    } else {
                        (Seq::empty(), JsonView::Null)
                    },
            ),
        ),
    }
}

impl View for Json {
    type V = JsonView;

    open spec fn view(&self) -> JsonView {
        json_view(*self)
    }
}

/// One member of an object: its key and its value.
pub type MemberView = (Seq<char>, JsonView);

/// The key that is renamed.
pub open spec fn krate_key() -> Seq<char> {
    "krate"@
}

/// The key that replaces it.
pub open spec fn crate_key() -> Seq<char> {
    "crate"@
}

/// The two keys are different keys.
pub proof fn lemma_keys_differ()
    ensures
        krate_key() != crate_key(),
{
    reveal_strlit("krate");
    reveal_strlit("crate");
    assert(krate_key()[0] == 'k');
    assert(crate_key()[0] == 'c');
}

/// A key after the rename.
pub open spec fn renamed_key(key: Seq<char>) -> Seq<char> {
    if key == krate_key() {
        crate_key()
    } else {
        key
    }
}

/// Whether some member of an object has the given key.
pub open spec fn has_key(members: Seq<MemberView>, key: Seq<char>) -> bool {
    exists|i: int| 0 <= i < members.len() && (#[trigger] members[i]).0 == key
}

/// The members after the rename of their keys, in their old order, with
/// the values left as they are. Where `shadowed` holds, a member `crate`
/// is dropped: it gives way to a member `krate`, which takes its key.
pub open spec fn renamed_members_when(members: Seq<MemberView>, shadowed: bool) -> Seq<MemberView>
    decreases members.len(),
{
    if members.len() == 0 {
        Seq::empty()
    } else {
        let before = renamed_members_when(members.drop_last(), shadowed);
        let member = members.last();
        if shadowed && member.0 == crate_key() {
            before
        } else {
            before.push((renamed_key(member.0), member.1))
        }
    }
}

/// The members of one object after the rename of their keys. As in a map
/// from keys to values, a renamed `krate` replaces a `crate` that the
/// object already had.
pub open spec fn renamed_members(members: Seq<MemberView>) -> Seq<MemberView> {
    renamed_members_when(members, has_key(members, krate_key()))
}

impl JsonView {
    /// The value with every object key `krate`, at every depth, renamed to
    /// `crate`. Arrays keep their order, other values are unchanged.
    pub open spec fn renamed(self) -> JsonView
        decreases self,
    {
        match self {
            JsonView::Array(items) => JsonView::Array(renamed_items(items)),
            JsonView::Object(members) => JsonView::Object(
                renamed_members(members_with_renamed_values(members)),
            ),
            other => other,
        }
    }
}

/// The elements of an array, each renamed throughout, in their old order.
pub open spec fn renamed_items(items: Seq<JsonView>) -> Seq<JsonView>
    decreases items,
{
    Seq::new(
        items.len(),
        |i: int|
            if 0 <= i < items.len() {
                items[i].renamed()
            } else {
                JsonView::Null
            },
    )
}

/// The members with each value renamed throughout and the keys left as
/// they are.
pub open spec fn members_with_renamed_values(members: Seq<MemberView>) -> Seq<MemberView>
    decreases members,
{
    Seq::new(
        members.len(),
        |i: int|
            if 0 <= i < members.len() {
                (members[i].0, members[i].1.renamed())
            } else {
                (Seq::empty(), JsonView::Null)
            },
    )
}

/// Renaming the values of the members leaves their keys as they are.
pub proof fn lemma_same_keys(members: Seq<MemberView>)
    ensures
        forall|key: Seq<char>|
            has_key(members_with_renamed_values(members), key) == has_key(members, key),
{
    let inner = members_with_renamed_values(members);
    assert forall|key: Seq<char>| has_key(inner, key) == has_key(members, key) by {
        if has_key(inner, key) {
            let k = choose|k: int| 0 <= k < inner.len() && (#[trigger] inner[k]).0 == key;
            assert(members[k].0 == key);
        }
        if has_key(members, key) {
            let k = choose|k: int| 0 <= k < members.len() && (#[trigger] members[k]).0 == key;
            assert(inner[k].0 == key);
        }
    }
}

/// The members of an object as mathematical values.
pub open spec fn members_view(members: Seq<(String, Json)>) -> Seq<MemberView> {
    Seq::new(members.len(), |i: int| (members[i].0@, members[i].1@))
}

/// Whether one of the members has the key `krate`.
fn has_krate(members: &Vec<(String, Json)>) -> (found: bool)
    ensures
        found == has_key(members_view(members@), krate_key()),
{
    let mut i: usize = 0;
    while i < members.len()
        invariant
            i <= members.len(),
            forall|j: int| 0 <= j < i ==> members@[j].0@ != krate_key(),
        decreases members.len() - i,
    {
        if same_text(members[i].0.as_str(), "krate") {
            assert(members_view(members@)[i as int].0 == krate_key());
            return true;
        }
        i += 1;
    }
    assert forall|j: int| 0 <= j < members_view(members@).len() implies (#[trigger] members_view(
        members@,
    )[j]).0 != krate_key() by {}
    false
}

/// Renames every object key `krate` to `crate`, at every depth. Array
/// elements keep their order, and all other values pass through
/// unchanged. Within one object a renamed `krate` replaces a member
/// `crate` that was already there.
#[verifier::loop_isolation(false)]
pub fn fixup(json: &Json) -> (renamed: Json)
    ensures
        renamed@ == json@.renamed(),
    decreases json,
{
    match json {
        Json::Null => Json::Null,
        Json::Boolean(b) => Json::Boolean(*b),
        Json::I64(n) => Json::I64(*n),
        Json::U64(n) => Json::U64(*n),
        Json::Real(text) => Json::Real(text.clone()),
        Json::String(s) => Json::String(s.clone()),
        Json::Array(items) => {
            let mut out: Vec<Json> = Vec::new();
            let mut i: usize = 0;
            while i < items.len()
                invariant
                    i <= items.len(),
                    out.len() == i,
                    forall|j: int| 0 <= j < i ==> out@[j]@ == items@[j]@.renamed(),
                decreases items.len() - i,
            {
                let item = fixup(&items[i]);
                out.push(item);
                i += 1;
            }
            let renamed = Json::Array(out);
            assert(renamed@ == json@.renamed()) by {
                assert(renamed@->Array_0 =~= renamed_items(json@->Array_0));
            }
            renamed
        },
        Json::Object(members) => {
            let shadowed = has_krate(members);
            let ghost given = members_view(members@);
            let ghost fixed = members_with_renamed_values(given);
            let mut out: Vec<(String, Json)> = Vec::new();
            let mut i: usize = 0;
            while i < members.len()
                invariant
                    i <= members.len(),
                    members_view(out@) == renamed_members_when(fixed.take(i as int), shadowed),
                decreases members.len() - i,
            {
                let key = &members[i].0;
                let value = fixup(&members[i].1);
                let ghost before = out@;
                proof {
                    lemma_keys_differ();
                    assert(fixed.take(i + 1).drop_last() =~= fixed.take(i as int));
                    assert(fixed.take(i + 1).last() == (key@, value@));
                }
                if same_text(key.as_str(), "krate") {
                    out.push(("crate".to_owned(), value));
                    assert(members_view(out@) =~= members_view(before).push((crate_key(), value@)));
                } else if shadowed && same_text(key.as_str(), "crate") {
                } else {
                    out.push((key.clone(), value));
                    assert(members_view(out@) =~= members_view(before).push((key@, value@)));
                }
                i += 1;
            }
            let renamed = Json::Object(out);
            assert(renamed@ == json@.renamed()) by {
                lemma_same_keys(given);
                assert(fixed.take(members.len() as int) =~= fixed);
                assert(json@->Object_0 =~= given);
                assert(renamed@->Object_0 =~= members_view(out@));
            }
            renamed
        },
    }
}

/// A JSON value as the parser holds it.
#[verifier::external_type_specification]
#[verifier::external_body]
pub struct ExParsed(Parsed);

/// What `rustc_serialize::json::Json::from_str` makes of a text that can
/// be handed to it: the value it builds, or nothing where it reports an
/// error. Such a text has no exponent, and what the parser makes of its
/// numbers is the same on every machine.
pub uninterp spec fn parsed_json(text: Seq<char>) -> Option<JsonView>;

/// The text that the `Display` impl of `rustc_serialize::json::Json`
/// writes for a value: compact JSON, the members of an object in the
/// order of their keys.
pub uninterp spec fn printed_json(json: JsonView) -> Seq<char>;

/// Copies a value of the parser into a [`Json`], variant by variant. The
/// members of an object come in the order of their keys.
#[verifier::external_body]
fn from_parsed(json: Parsed) -> Json {
    match json {
        Parsed::I64(n) => Json::I64(n),
        Parsed::U64(n) => Json::U64(n),
        Parsed::F64(x) => Json::Real(x.to_string()),
        Parsed::String(s) => Json::String(s),
        Parsed::Boolean(b) => Json::Boolean(b),
        Parsed::Array(items) => Json::Array(items.into_iter().map(from_parsed).collect()),
        Parsed::Object(map) => Json::Object(map.into_iter().map(|(k, v)| (k, from_parsed(v))).collect()),
        Parsed::Null => Json::Null,
    }
}

/// Copies a [`Json`] into a value of the parser, variant by variant. Of
/// two members with one key the later one stays. The text of a real
/// number is read with `str::parse`, which accepts every number text.
#[verifier::external_body]
fn to_parsed(json: &Json) -> Parsed
    requires
        json@.printable(),
{
    match json {
        Json::I64(n) => Parsed::I64(*n),
        Json::U64(n) => Parsed::U64(*n),
        Json::Real(text) => Parsed::F64(text.parse().unwrap()),
        Json::String(s) => Parsed::String(s.clone()),
        Json::Boolean(b) => Parsed::Boolean(*b),
        Json::Array(items) => Parsed::Array(items.iter().map(to_parsed).collect()),
        Json::Object(members) => Parsed::Object(members.iter().map(|m| (m.0.clone(), to_parsed(&m.1))).collect()),
        Json::Null => Parsed::Null,
    }
}

/// Parses a text with `rustc_serialize::json::Json::from_str`. The
/// result is the value that the parser built, copied into a [`Json`],
/// or `None` where the parser reported an error.
///
/// The parser does not return on every text, and [`parseable`] leaves
/// out the texts on which it may not:
/// - It goes one call deeper with each array and object.
/// - It notes in sixteen bits where the keys of the open objects lie in
///   one buffer, and counts the elements of an array in thirty-two.
/// - At a `,` before a `}` it drops the key of the object around, and
///   then takes that object for what it is not.
/// - It sums the digits of an exponent in a machine word, and raises ten
///   to it with a function whose precision differs between machines.
///
/// It reads a string from its opening `"` to the first `"` behind it
/// that no `\` escapes, and gives up at the first character that it
/// cannot place; so it is outside the strings exactly where a reader is
/// who knows of JSON only its strings.
#[verifier::external_body]
fn parse_json(text: &str) -> (parsed: Option<Json>)
    requires
        parseable(text@),
    ensures
        match parsed {
            Some(json) => parsed_json(text@) == Some(json@),
            None => parsed_json(text@) is None,
        },
{
    Parsed::from_str(text).ok().map(from_parsed)
}

/// Prints a value with the `Display` impl of
/// `rustc_serialize::json::Json`, after copying it into a value of the
/// parser.
#[verifier::external_body]
fn print_json(json: &Json) -> (text: String)
    requires
        json@.printable(),
    ensures
        text@ == printed_json(json@),
{
    to_parsed(json).to_string()
}

/// The response that carries a JSON text: status 200, the content type
/// of JSON in UTF-8, the length of the body in bytes, and the text in
/// UTF-8 as the body.
pub open spec fn json_reply_view(text: Seq<char>) -> ResponseView {
    ResponseView {
        code: 200,
        reason: "OK"@,
        headers: Map::empty().insert(
            "Content-Type"@,
            seq!["application/json; charset=utf-8"@],
        ).insert("Content-Length"@, seq![decimal(encode_utf8(text).len())]),
        body: encode_utf8(text),
    }
}

/// Wraps a JSON text in a response.
pub fn json_reply(text: &str) -> (response: Response)
    ensures
        response@ == json_reply_view(text@),
        response@.well_formed(),
{
    let body = text.as_bytes_vec();
    let mut headers: TextMap<Vec<String>> = TextMap::new();
    let mut content_type: Vec<String> = Vec::new();
    content_type.push("application/json; charset=utf-8".to_owned());
    let mut content_length: Vec<String> = Vec::new();
    content_length.push(decimal_text(body.len()));
    assert(content_type.deep_view() =~= seq!["application/json; charset=utf-8"@]);
    assert(content_length.deep_view() =~= seq![decimal(encode_utf8(text@).len())]);
    headers.insert("Content-Type".to_owned(), content_type);
    headers.insert("Content-Length".to_owned(), content_length);
    let response = Response { status: (200, "OK"), headers, body };
    assert(response@.well_formed()) by {
        assert(content_type.deep_view().len() == 1);
        assert(content_length.deep_view().len() == 1);
    }
    response
}

/// The response for a JSON value: the value with `krate` renamed to
/// `crate` throughout, printed and wrapped in a response.
pub fn respond_with(json: &Json) -> (response: Response)
    requires
        json@.printable(),
    ensures
        response@ == json_reply_view(printed_json(json@.renamed())),
        response@.well_formed(),
{
    let shaped = fixup(json);
    proof {
        lemma_renamed_is_printable(json@);
    }
    let text = print_json(&shaped);
    json_reply(text.as_str())
}

/// Whether a text holds a value that can be answered with: the text can
/// be handed to the parser, the parser makes a value of it, and that
/// value can be handed to the printer.
pub open spec fn respondable(text: Seq<char>) -> bool {
    &&& parseable(text)
    &&& parsed_json(text) matches Some(json)
    &&& json.printable()
}

/// The response for a value encoded as JSON text. The text is parsed,
/// its keys are renamed, and the result is printed again.
pub fn json_response(encoded: &str) -> (response: Response)
    requires
        respondable(encoded@),
    ensures
        response@ == json_reply_view(printed_json(parsed_json(encoded@).unwrap().renamed())),
        response@.well_formed(),
{
    match parse_json(encoded) {
        Some(json) => respond_with(&json),
        None => unreached(),
    }
}

/// Whether a text holds a value that can be answered with.
pub fn can_respond(text: &str) -> (yes: bool)
    ensures
        yes == respondable(text@),
{
    if !is_parseable(text) {
        return false;
    }
    match parse_json(text) {
        Some(json) => is_printable(&json),
        None => false,
    }
}

/// The response for a value encoded as JSON text, or `None` where the
/// text holds no value that can be answered with.
pub fn try_json_response(encoded: &str) -> (response: Option<Response>)
    ensures
        match response {
            Some(r) => respondable(encoded@) && r@ == json_reply_view(
                printed_json(parsed_json(encoded@).unwrap().renamed()),
            ) && r@.well_formed(),
            None => !respondable(encoded@),
        },
{
    if can_respond(encoded) {
        Some(json_response(encoded))
    } else {
        None
    }
}

} // verus!
