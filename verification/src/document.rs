//! The public document types: inline text rendering, full document
//! rendering, and the two metadata accessors (title and author card).

use vstd::prelude::*;
use core::marker::PhantomData;
use crate::format::{FormatEngine, ParagraphEngine};
use crate::render::{
    card_fields_of, doc_render, is_card_line, render_document_into, render_inline_into,
    text_render,
};
use crate::scan::{
    chars_to_string, copy_range, find_char, lines_from, lines_of, str_chars, strip_cr, trim_line,
    trim_of, trim_range, ws_run_to, ws_to,
};

verus! {

/// A title line: one `#` not followed by another `#`.
pub open spec fn is_title_line(t: Seq<char>) -> bool {
    t.len() >= 1 && t[0] == '#' && !(t.len() >= 2 && t[1] == '#')
}

/// The title of the lines `ls`: the content of the first title line, with
/// the whitespace after the `#` skipped, or empty if there is none.
pub open spec fn title_in(ls: Seq<Seq<char>>) -> Seq<char>
    decreases ls.len(),
{
    if ls.len() == 0 {
        Seq::empty()
    } else if is_title_line(trim_of(ls[0])) {
        let t = trim_of(ls[0]);
        t.subrange(ws_run_to(t, 1, t.len() as int), t.len() as int)
    } else {
        title_in(ls.drop_first())
    }
}

/// The title of a whole document.
pub open spec fn title_of(s: Seq<char>) -> Seq<char> {
    title_in(lines_of(s))
}

/// The author card of the lines `ls`: the fields of the first `///` line
/// whose remainder splits into exactly three `/`-separated parts, or
/// nothing if no such line exists.
pub open spec fn card_in(ls: Seq<Seq<char>>) -> Option<(Seq<char>, Seq<char>, Seq<char>)>
    decreases ls.len(),
{
    if ls.len() == 0 {
        None
    } else if is_card_line(trim_of(ls[0])) && card_fields_of(trim_of(ls[0])) is Some {
        card_fields_of(trim_of(ls[0]))
    } else {
        card_in(ls.drop_first())
    }
}

/// The author card of a whole document.
pub open spec fn author_card_of(s: Seq<char>) -> Option<(Seq<char>, Seq<char>, Seq<char>)> {
    card_in(lines_of(s))
}

/// Provides text formatting (inline formatting) of a single line of text.
pub struct Text<'a, E: FormatEngine = ParagraphEngine> {
    pub v: &'a str,
    pub _marker: PhantomData<E>,
}

impl<'a> Text<'a, ParagraphEngine> {
    /// A line of text under the default backend.
    pub fn text(v: &'a str) -> (r: Self)
        ensures
            r.v@ == v@,
    {
        Self::new(v)
    }
}

impl<'a, E: FormatEngine> Text<'a, E> {
    /// A line of text under the backend `E`.
    pub fn new(v: &'a str) -> (r: Self)
        ensures
            r.v@ == v@,
    {
        Text { v, _marker: PhantomData }
    }

    /// Renders this line: bold, italic, code and link syntax resolved,
    /// HTML-special characters entity-escaped.
    pub fn render(&self) -> (r: String)
        ensures
            r@ == text_render::<E>(self.v@),
    {
        let cs = str_chars(self.v);
        let mut out: Vec<char> = Vec::new();
        render_inline_into::<E>(&mut out, &cs, false);
        chars_to_string(&out)
    }
}

/// Provides full document formatting: a single forward pass over the
/// lines, classifying each and delegating content to the inline renderer.
pub struct Document<'a, E: FormatEngine = ParagraphEngine> {
    pub v: &'a str,
    pub _marker: PhantomData<E>,
}

impl<'a, E: FormatEngine> Document<'a, E> {
    /// A document over the borrowed text `v`.
    pub fn new(v: &'a str) -> (r: Self)
        ensures
            r.v@ == v@,
    {
        Document { v, _marker: PhantomData }
    }

    /// Renders the whole document under the backend `E`.
    pub fn render(&self) -> (r: String)
        ensures
            r@ == doc_render::<E>(self.v@),
    {
        let cs = str_chars(self.v);
        let mut out: Vec<char> = Vec::new();
        render_document_into::<E>(&mut out, &cs);
        chars_to_string(&out)
    }

    /// Gets the first title heading's content. If there is no title,
    /// returns the empty string.
    pub fn get_title(&self) -> (r: String)
        ensures
            r@ == title_of(self.v@),
    {
        let cs = str_chars(self.v);
        let mut i: usize = 0;
        while i < cs.len()
            invariant
                i <= cs@.len(),
                title_of(self.v@) == title_in(lines_from(cs@, i as int)),
                cs@ == self.v@,
            decreases cs@.len() - i,
        {
            let k = find_char(&cs, '\n', i);
            let mut raw = copy_range(&cs, i, k);
            let ghost ni: int = if k < cs@.len() {
                k + 1
            } else {
                cs@.len() as int
            };
            if k < cs.len() {
                if raw.len() > 0 && raw[raw.len() - 1] == '\r' {
                    raw.pop();
                }
                proof {
                    assert(raw@ =~= strip_cr(cs@.subrange(i as int, k as int)));
                }
            }
            proof {
                if k < cs@.len() {
                    assert(lines_from(cs@, i as int) == seq![raw@] + lines_from(cs@, ni));
                } else {
                    assert(raw@ == cs@.subrange(i as int, cs@.len() as int));
                    assert(lines_from(cs@, ni) =~= Seq::<Seq<char>>::empty());
                    assert(lines_from(cs@, i as int) =~= seq![raw@] + lines_from(cs@, ni));
                }
                let rem = lines_from(cs@, i as int);
                assert(rem[0] == raw@);
                assert(rem.drop_first() =~= lines_from(cs@, ni));
            }
            let t = trim_line(&raw);
            if t.len() >= 1 && t[0] == '#' && !(t.len() >= 2 && t[1] == '#') {
                let a = ws_to(&t, 1, t.len());
                let content = copy_range(&t, a, t.len());
                return chars_to_string(&content);
            }
            if k < cs.len() {
                i = k + 1;
            } else {
                i = cs.len();
            }
        }
        proof {
            assert(lines_from(cs@, cs@.len() as int) =~= Seq::<Seq<char>>::empty());
        }
        String::new()
    }

    /// Gets the first author card, if any: the trimmed name, date and
    /// category of the first `///` line whose remainder splits into
    /// exactly three `/`-separated fields.
    pub fn get_author_card(&self) -> (r: Option<(String, String, String)>)
        ensures
            r is Some <==> author_card_of(self.v@) is Some,
            r matches Some(x) ==> author_card_of(self.v@) == Some((x.0@, x.1@, x.2@)),
    {
        let cs = str_chars(self.v);
        let mut i: usize = 0;
        while i < cs.len()
            invariant
                i <= cs@.len(),
                author_card_of(self.v@) == card_in(lines_from(cs@, i as int)),
                cs@ == self.v@,
            decreases cs@.len() - i,
        {
            let k = find_char(&cs, '\n', i);
            let mut raw = copy_range(&cs, i, k);
            let ghost ni: int = if k < cs@.len() {
                k + 1
            } else {
                cs@.len() as int
            };
            if k < cs.len() {
                if raw.len() > 0 && raw[raw.len() - 1] == '\r' {
                    raw.pop();
                }
                proof {
                    assert(raw@ =~= strip_cr(cs@.subrange(i as int, k as int)));
                }
            }
            proof {
                if k < cs@.len() {
                    assert(lines_from(cs@, i as int) == seq![raw@] + lines_from(cs@, ni));
                } else {
                    assert(raw@ == cs@.subrange(i as int, cs@.len() as int));
                    assert(lines_from(cs@, ni) =~= Seq::<Seq<char>>::empty());
                    assert(lines_from(cs@, i as int) =~= seq![raw@] + lines_from(cs@, ni));
                }
                let rem = lines_from(cs@, i as int);
                assert(rem[0] == raw@);
                assert(rem.drop_first() =~= lines_from(cs@, ni));
            }
            let t = trim_line(&raw);
            if t.len() >= 3 && t[0] == '/' && t[1] == '/' && t[2] == '/' {
                let k1 = find_char(&t, '/', 3);
                if k1 < t.len() {
                    let k2 = find_char(&t, '/', k1 + 1);
                    if k2 < t.len() {
                        let k3 = find_char(&t, '/', k2 + 1);
                        if k3 == t.len() {
                            let name = trim_range(&t, 3, k1);
                            let date = trim_range(&t, k1 + 1, k2);
                            let cat = trim_range(&t, k2 + 1, t.len());
                            proof {
                                assert(card_fields_of(t@) == Some((name@, date@, cat@)));
                            }
                            return Some(
                                (chars_to_string(&name), chars_to_string(&date), chars_to_string(
                                    &cat,
                                )),
                            );
                        }
                    }
                }
                proof {
                    assert(card_fields_of(t@) is None);
                }
            }
            if k < cs.len() {
                i = k + 1;
            } else {
                i = cs.len();
            }
        }
        proof {
            assert(lines_from(cs@, cs@.len() as int) =~= Seq::<Seq<char>>::empty());
        }
        None
    }
}

} // verus!
