//! Joining the items of a list with commas.

use vstd::prelude::*;
use vstd::string::*;
use crate::text::{decimal, decimal_text};

verus! {

/// A value that can be written out as text.
pub trait Render {
    /// The text of the value.
    spec fn text(&self) -> Seq<char>;

    /// Writes the text of the value at the end of `out`.
    fn render(&self, out: &mut String)
        ensures
            final(out)@ == old(out)@ + self.text(),
    ;
}

impl Render for String {
    open spec fn text(&self) -> Seq<char> {
        self@
    }

    fn render(&self, out: &mut String) {
        out.append(self.as_str());
    }
}

impl<'a> Render for &'a str {
    open spec fn text(&self) -> Seq<char> {
        self@
    }

    fn render(&self, out: &mut String) {
        out.append(*self);
    }
}

impl Render for usize {
    open spec fn text(&self) -> Seq<char> {
        decimal(*self as nat)
    }

    fn render(&self, out: &mut String) {
        let digits = decimal_text(*self);
        out.append(digits.as_str());
    }
}

/// The texts joined by `", "`: no separator before the first text or
/// after the last one, and the empty text for no texts at all.
pub open spec fn comma_separated(texts: Seq<Seq<char>>) -> Seq<char>
    decreases texts.len(),
{
    if texts.len() == 0 {
        Seq::empty()
    } else if texts.len() == 1 {
        texts[0]
    } else {
        comma_separated(texts.drop_last()) + ", "@ + texts.last()
    }
}

/// What is written before the item at position `index`: nothing before
/// the first item, `", "` before every other.
pub open spec fn separator(index: nat) -> Seq<char> {
    if index == 0 {
        Seq::empty()
    } else {
        ", "@
    }
}

/// What is to be written before the item at position `index`.
pub fn separator_before(index: usize) -> (text: &'static str)
    ensures
        text@ == separator(index as nat),
{
    if index == 0 {
        proof {
            reveal_strlit("");
        }
        ""
    } else {
        ", "
    }
}

/// Writing each text behind its separator gives the texts joined.
pub proof fn lemma_joined_by_separators(texts: Seq<Seq<char>>)
    requires
        texts.len() > 0,
    ensures
        comma_separated(texts) == comma_separated(texts.drop_last()) + separator(
            (texts.len() - 1) as nat,
        ) + texts.last(),
{
    if texts.len() == 1 {
        assert(texts.drop_last().len() == 0);
        assert(comma_separated(texts) =~= comma_separated(texts.drop_last()) + separator(0)
            + texts.last());
    }
}

/// The texts of a list of items, in their order.
pub open spec fn texts_of<T: Render>(items: Seq<T>) -> Seq<Seq<char>> {
    Seq::new(items.len(), |i: int| items[i].text())
}

/// A list of items that is written out with `", "` between neighbours.
/// Nothing is joined before it is written: each item goes straight to
/// where the text is written.
pub struct CommaSep<'a, T: 'a>(pub &'a [T]);

impl<'a, T: Render> Render for CommaSep<'a, T> {
    open spec fn text(&self) -> Seq<char> {
        comma_separated(texts_of(self.0@))
    }

    fn render(&self, out: &mut String) {
        let ghost texts = texts_of(self.0@);
        let mut i: usize = 0;
        while i < self.0.len()
            invariant
                i <= self.0.len(),
                texts == texts_of(self.0@),
                out@ == old(out)@ + comma_separated(texts.take(i as int)),
            decreases self.0.len() - i,
        {
            proof {
                assert(texts.take(i + 1).drop_last() =~= texts.take(i as int));
                assert(texts.take(i + 1).last() == self.0@[i as int].text());
                lemma_joined_by_separators(texts.take(i + 1));
            }
            out.append(separator_before(i));
            self.0[i].render(out);
            assert(out@ =~= old(out)@ + comma_separated(texts.take(i + 1)));
            i += 1;
        }
        assert(texts.take(i as int) =~= texts);
    }
}

impl<'a, T: Render> CommaSep<'a, T> {
    /// The whole text in a string of its own.
    pub fn to_text(&self) -> (text: String)
        ensures
            text@ == self.text(),
    {
        let mut text = String::new();
        self.render(&mut text);
        assert(text@ =~= self.text());
        text
    }
}

} // verus!
