//! The texts that can be handed to the JSON parser and the values that
//! can be handed to the printer.

use vstd::prelude::*;
use vstd::string::*;
use crate::json::{Json, JsonView};
use crate::text::{chars_of, is_digit, same_text};

verus! {

/// How deep arrays and objects may stand inside one another. The parser
/// and the printer go one call deeper with each.
pub const MAX_DEPTH: usize = 64;

/// The most characters that a key may have. The parser keeps the keys of
/// the objects that are open in one buffer and notes places in it in
/// sixteen bits: with at most four bytes to a character, the keys that
/// are open at one time have no more than 4 * 255 * 64 = 65280 bytes.
pub const MAX_KEY_CHARS: usize = 255;

/// The most characters that a text may have. The parser counts the
/// elements of an array in thirty-two bits.
pub const MAX_JSON_CHARS: usize = 0xffff_ffff;

/// What a reader knows after some characters of a text who knows of JSON
/// only its strings and its brackets.
pub struct Scan {
    /// Whether the reader is inside a string.
    pub inside: bool,
    /// Whether the last character was a `\` that takes the next one with
    /// it.
    pub taken: bool,
    /// How many arrays and objects are open.
    pub depth: nat,
    /// How many characters the string has that was opened last, so far
    /// or in all.
    pub chars: nat,
}

/// Whether a character opens an array or an object.
pub open spec fn opens(c: char) -> bool {
    c == '[' || c == '{'
}

/// Whether a character closes an array or an object.
pub open spec fn closes(c: char) -> bool {
    c == ']' || c == '}'
}

/// Whether a character is one that the parser skips between values.
pub open spec fn is_space(c: char) -> bool {
    c == ' ' || c == '\n' || c == '\t' || c == '\r'
}

/// What the reader knows after one more character. A string starts at a
/// `"` outside a string and ends at the next `"` that no `\` takes with
/// it. Brackets count outside strings alone.
pub open spec fn scan_step(before: Scan, c: char) -> Scan {
    if !before.inside {
        Scan {
            inside: c == '"',
            taken: false,
            depth: if opens(c) {
                before.depth + 1
            } else if closes(c) && before.depth > 0 {
                (before.depth - 1) as nat
            } else {
                before.depth
            },
            chars: if c == '"' {
                0
            } else {
                before.chars
            },
        }
    } else if before.taken {
        Scan { taken: false, chars: before.chars + 1, ..before }
    } else if c == '"' {
        Scan { inside: false, ..before }
    } else {
        Scan { taken: c == '\\', chars: before.chars + 1, ..before }
    }
}

/// What the reader knows after the first `at` characters of a text.
pub open spec fn scan(text: Seq<char>, at: int) -> Scan
    decreases at,
{
    if at <= 0 || at > text.len() {
        Scan { inside: false, taken: false, depth: 0, chars: 0 }
    } else {
        scan_step(scan(text, at - 1), text[at - 1])
    }
}

/// Whether the first character at or behind `from` that is no space is
/// a `}`.
pub open spec fn object_ends(text: Seq<char>, from: int) -> bool
    decreases text.len() - from,
{
    if 0 <= from < text.len() {
        if is_space(text[from]) {
            object_ends(text, from + 1)
        } else {
            text[from] == '}'
        }
    } else {
        false
    }
}

/// Whether the character at `at` may stand where it stands. Inside a
/// string every character may. Outside the strings
/// - a bracket opens no array or object deeper than [`MAX_DEPTH`],
/// - a `:` follows no string of more than [`MAX_KEY_CHARS`] characters,
/// - no `}` follows a `,`, with or without space between, and
/// - no `e` or `E` follows a digit, which would make an exponent of it.
pub open spec fn allowed_at(text: Seq<char>, at: int) -> bool {
    let c = text[at];
    !scan(text, at).inside ==> {
        &&& opens(c) ==> scan(text, at).depth < MAX_DEPTH
        &&& c == ':' ==> scan(text, at).chars <= MAX_KEY_CHARS
        &&& c == ',' ==> !object_ends(text, at + 1)
        &&& (c == 'e' || c == 'E') ==> !(at > 0 && is_digit(text[at - 1]))
    }
}

/// Whether a text can be handed to the parser: it has at most
/// [`MAX_JSON_CHARS`] characters, and every one of them may stand where
/// it stands.
pub open spec fn parseable(text: Seq<char>) -> bool {
    &&& text.len() <= MAX_JSON_CHARS
    &&& forall|at: int| 0 <= at < text.len() ==> allowed_at(text, at)
}

/// Whether the first character at or behind `from` that is no space is
/// a `}`.
fn ends_object(chars: &Vec<char>, from: usize) -> (ends: bool)
    requires
        from <= chars.len(),
    ensures
        ends == object_ends(chars@, from as int),
{
    let mut at: usize = from;
    while at < chars.len() && (chars[at] == ' ' || chars[at] == '\n' || chars[at] == '\t'
        || chars[at] == '\r')
        invariant
            from <= at <= chars.len(),
            object_ends(chars@, from as int) == object_ends(chars@, at as int),
        decreases chars.len() - at,
    {
        at += 1;
    }
    at < chars.len() && chars[at] == '}'
}

/// Whether a text can be handed to the parser.
#[verifier::loop_isolation(false)]
pub fn is_parseable(text: &str) -> (yes: bool)
    ensures
        yes == parseable(text@),
{
    let chars = chars_of(text);
    if chars.len() > MAX_JSON_CHARS {
        return false;
    }
    let mut inside = false;
    let mut taken = false;
    let mut depth: usize = 0;
    let mut count: usize = 0;
    let mut at: usize = 0;
    while at < chars.len()
        invariant
            at <= chars.len(),
            chars@ == text@,
            scan(text@, at as int) == (Scan {
                inside,
                taken,
                depth: depth as nat,
                chars: count as nat,
            }),
            depth <= MAX_DEPTH,
            count <= at,
            forall|k: int| 0 <= k < at ==> allowed_at(text@, k),
        decreases chars.len() - at,
    {
        let c = chars[at];
        if !inside {
            let deep = (c == '[' || c == '{') && depth >= MAX_DEPTH;
            let long = c == ':' && count > MAX_KEY_CHARS;
            let dangling = c == ',' && ends_object(&chars, at + 1);
            let exponent = (c == 'e' || c == 'E') && at > 0 && chars[at - 1] >= '0' && chars[at
                - 1] <= '9';
            if deep || long || dangling || exponent {
                assert(!allowed_at(text@, at as int));
                return false;
            }
            if c == '"' {
                inside = true;
                count = 0;
            } else if c == '[' || c == '{' {
                depth += 1;
            } else if (c == ']' || c == '}') && depth > 0 {
                depth -= 1;
            }
        } else if taken {
            taken = false;
            count += 1;
        } else if c == '"' {
            inside = false;
        } else {
            taken = c == '\\';
            count += 1;
        }
        at += 1;
    }
    true
}

/// Whether all characters are digits but at most one, a `.` that has
/// digits on both sides.
pub open spec fn is_plain_decimal(text: Seq<char>) -> bool {
    &&& text.len() > 0
    &&& text[0] != '.'
    &&& text.last() != '.'
    &&& forall|i: int| 0 <= i < text.len() ==> is_digit(#[trigger] text[i]) || text[i] == '.'
    &&& forall|i: int, j: int|
        0 <= i < j < text.len() ==> !(#[trigger] text[i] == '.' && #[trigger] text[j] == '.')
}

/// The text without a leading `-`.
pub open spec fn unsigned_part(text: Seq<char>) -> Seq<char> {
    if text.len() > 0 && text[0] == '-' {
        text.drop_first()
    } else {
        text
    }
}

/// Whether a text writes a real number: digits, with a `-` before them
/// and a `.` among them where the number needs one, or one of `inf`,
/// `-inf` and `NaN`.
pub open spec fn is_number_text(text: Seq<char>) -> bool {
    text == "NaN"@ || text == "inf"@ || text == "-inf"@ || is_plain_decimal(unsigned_part(text))
}

/// Whether a text writes a real number.
#[verifier::loop_isolation(false)]
pub fn number_text(text: &str) -> (yes: bool)
    ensures
        yes == is_number_text(text@),
{
    if same_text(text, "NaN") || same_text(text, "inf") || same_text(text, "-inf") {
        return true;
    }
    let chars = chars_of(text);
    let start: usize = if chars.len() > 0 && chars[0] == '-' {
        1
    } else {
        0
    };
    let ghost body = unsigned_part(text@);
    assert(body =~= chars@.subrange(start as int, chars.len() as int));
    if start == chars.len() {
        return false;
    }
    if chars[start] == '.' || chars[chars.len() - 1] == '.' {
        return false;
    }
    let mut dots: usize = 0;
    let ghost mut dot_at: int = 0;
    let mut i: usize = start;
    while i < chars.len()
        invariant
            start <= i <= chars.len(),
            body == chars@.subrange(start as int, chars.len() as int),
            dots <= 1,
            dots == 1 ==> 0 <= dot_at < i - start && body[dot_at] == '.',
            dots == 0 ==> forall|k: int| 0 <= k < i - start ==> body[k] != '.',
            forall|k: int| 0 <= k < i - start ==> is_digit(#[trigger] body[k]) || body[k] == '.',
            forall|a: int, b: int|
                0 <= a < b < i - start ==> !(#[trigger] body[a] == '.' && #[trigger] body[b] == '.'),
        decreases chars.len() - i,
    {
        let c = chars[i];
        assert(c == body[i - start]);
        if c == '.' {
            if dots == 1 {
                assert(body[dot_at] == '.' && body[i - start] == '.');
                return false;
            }
            dots = 1;
            proof {
                dot_at = i - start;
            }
        } else if c < '0' || c > '9' {
            assert(!(is_digit(body[i - start]) || body[i - start] == '.'));
            return false;
        }
        i += 1;
    }
    true
}

impl JsonView {
    /// Whether every real number in the value, at any depth, is written
    /// as a number, and arrays and objects stand at most `depth` deep
    /// inside one another.
    pub open spec fn fits(self, depth: nat) -> bool
        decreases self,
    {
        match self {
            JsonView::Real(text) => is_number_text(text),
            JsonView::Array(items) => depth > 0 && forall|i: int|
                0 <= i < items.len() ==> (#[trigger] items[i]).fits((depth - 1) as nat),
            JsonView::Object(members) => depth > 0 && forall|i: int|
                0 <= i < members.len() ==> (#[trigger] members[i]).1.fits((depth - 1) as nat),
            _ => true,
        }
    }

    /// Whether the value can be handed to the printer: every real number
    /// in it is written as a number, and arrays and objects stand at most
    /// [`MAX_DEPTH`] deep inside one another.
    pub open spec fn printable(self) -> bool {
        self.fits(MAX_DEPTH as nat)
    }
}

/// Whether every real number in the value is written as a number, and
/// arrays and objects stand at most `depth` deep inside one another.
#[verifier::loop_isolation(false)]
pub fn fits_in(json: &Json, depth: usize) -> (yes: bool)
    ensures
        yes == json@.fits(depth as nat),
    decreases json,
{
    match json {
        Json::Real(text) => number_text(text.as_str()),
        Json::Array(items) => {
            if depth == 0 {
                return false;
            }
            let mut i: usize = 0;
            while i < items.len()
                invariant
                    i <= items.len(),
                    forall|k: int|
                        0 <= k < i ==> (#[trigger] json@->Array_0[k]).fits((depth - 1) as nat),
                decreases items.len() - i,
            {
                assert(json@->Array_0[i as int] == items@[i as int]@);
                if !fits_in(&items[i], depth - 1) {
                    return false;
                }
                i += 1;
            }
            true
        },
        Json::Object(members) => {
            if depth == 0 {
                return false;
            }
            let mut i: usize = 0;
            while i < members.len()
                invariant
                    i <= members.len(),
                    forall|k: int|
                        0 <= k < i ==> (#[trigger] json@->Object_0[k]).1.fits((depth - 1) as nat),
                decreases members.len() - i,
            {
                assert(json@->Object_0[i as int].1 == members@[i as int].1@);
                if !fits_in(&members[i].1, depth - 1) {
                    return false;
                }
                i += 1;
            }
            true
        },
        _ => true,
    }
}

/// Whether a value can be handed to the printer.
pub fn is_printable(json: &Json) -> (yes: bool)
    ensures
        yes == json@.printable(),
{
    fits_in(json, MAX_DEPTH)
}

} // verus!
