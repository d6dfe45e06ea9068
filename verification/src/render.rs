//! The two-level rendering engine. Both the inline-span tokenizer and the
//! block-level line classifier are modelled as spec-level state machines
//! that produce a stream of events — tag opens, tag closes and literal
//! characters — and the executable renderers are proved to emit exactly
//! the markup those events map to under the chosen backend.

use vstd::prelude::*;
use crate::format::{FormatEngine, FormatType, ListType};
use crate::scan::{
    ascii_only, copy_range, find_char, find_from, hash_run, hash_to, lines_from, lines_of,
    push_ascii_of, push_range, push_str, strip_cr, trim_line, trim_of, trim_range, trim_sub,
    ws_run_to, ws_to,
};

verus! {

/// One event of a render: a construct opened or closed (under the normal
/// backend or under the code-block backend), or literal characters.
pub ghost enum Ev {
    Open(FormatType),
    Close(FormatType),
    CodeOpen(FormatType),
    CodeClose(FormatType),
    Chars(Seq<char>),
}

/// The open event of `t`, under the code-block backend when `cc` holds.
pub open spec fn mk_open(cc: bool, t: FormatType) -> Ev {
    if cc {
        Ev::CodeOpen(t)
    } else {
        Ev::Open(t)
    }
}

/// The close event of `t`, under the code-block backend when `cc` holds.
pub open spec fn mk_close(cc: bool, t: FormatType) -> Ev {
    if cc {
        Ev::CodeClose(t)
    } else {
        Ev::Close(t)
    }
}

/// The markup characters one event maps to under backend `E`.
pub open spec fn ev_chars<E: FormatEngine>(ev: Ev) -> Seq<char> {
    match ev {
        Ev::Open(t) => E::spec_begin(t),
        Ev::Close(t) => E::spec_end(t),
        Ev::CodeOpen(t) => E::spec_code_begin(t),
        Ev::CodeClose(t) => E::spec_code_end(t),
        Ev::Chars(cs) => cs,
    }
}

/// The markup characters a whole event stream maps to under backend `E`.
pub open spec fn render_evs<E: FormatEngine>(evs: Seq<Ev>) -> Seq<char>
    decreases evs.len(),
{
    if evs.len() == 0 {
        Seq::empty()
    } else {
        ev_chars::<E>(evs[0]) + render_evs::<E>(evs.drop_first())
    }
}

pub proof fn lemma_render_app<E: FormatEngine>(a: Seq<Ev>, b: Seq<Ev>)
    ensures
        render_evs::<E>(a + b) == render_evs::<E>(a) + render_evs::<E>(b),
    decreases a.len(),
{
    if a.len() == 0 {
        assert(a + b =~= b);
        assert(render_evs::<E>(a) + render_evs::<E>(b) =~= render_evs::<E>(b));
    } else {
        assert((a + b).drop_first() =~= a.drop_first() + b);
        lemma_render_app::<E>(a.drop_first(), b);
        assert((a + b)[0] == a[0]);
        assert(render_evs::<E>(a + b) =~= render_evs::<E>(a) + render_evs::<E>(b));
    }
}

pub proof fn lemma_render_one<E: FormatEngine>(e: Ev)
    ensures
        render_evs::<E>(seq![e]) == ev_chars::<E>(e),
{
    assert(seq![e].drop_first() =~= Seq::<Ev>::empty());
    assert(render_evs::<E>(Seq::<Ev>::empty()) == Seq::<char>::empty());
    assert(seq![e][0] == e);
    assert(ev_chars::<E>(e) + Seq::<char>::empty() =~= ev_chars::<E>(e));
    assert(render_evs::<E>(seq![e]) =~= ev_chars::<E>(e));
}

pub proof fn lemma_render_two<E: FormatEngine>(e1: Ev, e2: Ev)
    ensures
        render_evs::<E>(seq![e1, e2]) == ev_chars::<E>(e1) + ev_chars::<E>(e2),
{
    assert(seq![e1, e2] =~= seq![e1] + seq![e2]);
    lemma_render_app::<E>(seq![e1], seq![e2]);
    lemma_render_one::<E>(e1);
    lemma_render_one::<E>(e2);
}

/// The entity expansion of one literal character: the HTML-special
/// characters are always entity-escaped, every other character stands for
/// itself.
pub open spec fn ent(c: char) -> Seq<char> {
    if c == '&' {
        seq!['&', 'a', 'm', 'p', ';']
    } else if c == '<' {
        seq!['&', 'l', 't', ';']
    } else if c == '>' {
        seq!['&', 'g', 't', ';']
    } else {
        seq![c]
    }
}

/// The ephemeral, line-scoped state of the inline-span tokenizer: three
/// independent span toggles, the link sub-machine state (0 = idle, 1 = saw
/// the link escape, 2 = inside the URL, 3 = URL closed, 4 = inside the
/// link text), the index just after the URL opener, and the one-character
/// literal flag set by an active escape character.
pub ghost struct InlineSt {
    pub bold: bool,
    pub italic: bool,
    pub code: bool,
    pub link: int,
    pub lstart: int,
    pub lit: bool,
}

/// The state every line starts in.
pub open spec fn inline_init() -> InlineSt {
    InlineSt { bold: false, italic: false, code: false, link: 0, lstart: 0, lit: false }
}

/// The toggle event for a span that is currently `on`.
pub open spec fn toggle_ev(cc: bool, on: bool, t: FormatType) -> Ev {
    if on {
        mk_close(cc, t)
    } else {
        mk_open(cc, t)
    }
}

/// One step of the inline tokenizer on the character `s[i]`.
pub open spec fn inline_step(
    s: Seq<char>,
    i: int,
    st: InlineSt,
    esc: Option<char>,
    cc: bool,
) -> (Seq<Ev>, InlineSt)
    recommends
        0 <= i < s.len(),
{
    let c = s[i];
    if st.lit {
        (seq![Ev::Chars(ent(c))], InlineSt { lit: false, ..st })
    } else if esc == Some(c) {
        (Seq::<Ev>::empty(), InlineSt { lit: true, ..st })
    } else if st.link == 1 {
        if c == '(' {
            (
                seq![mk_open(cc, FormatType::InlineLink), mk_open(cc, FormatType::InlineLinkUrl)],
                InlineSt { link: 2, lstart: i + 1, ..st },
            )
        } else if c == '[' {
            (
                seq![mk_open(cc, FormatType::InlineLink), mk_open(cc, FormatType::InlineLinkText)],
                InlineSt { link: 4, ..st },
            )
        } else {
            (seq![Ev::Chars(ent(c))], InlineSt { link: 0, ..st })
        }
    } else if st.link == 2 {
        if c == ')' {
            (seq![mk_close(cc, FormatType::InlineLinkUrl)], InlineSt { link: 3, ..st })
        } else if c == '*' {
            (seq![toggle_ev(cc, st.bold, FormatType::InlineBold)], InlineSt { bold: !st.bold, ..st })
        } else if c == '_' {
            (
                seq![toggle_ev(cc, st.italic, FormatType::InlineItalic)],
                InlineSt { italic: !st.italic, ..st },
            )
        } else if c == '`' {
            (seq![toggle_ev(cc, st.code, FormatType::InlineCode)], InlineSt { code: !st.code, ..st })
        } else {
            (seq![Ev::Chars(ent(c))], st)
        }
    } else if st.link == 3 {
        if c == '[' {
            (seq![mk_open(cc, FormatType::InlineLinkText)], InlineSt { link: 4, ..st })
        } else {
            (
                seq![
                    mk_open(cc, FormatType::InlineLinkText),
                    Ev::Chars(s.subrange(st.lstart, i - 1)),
                    mk_close(cc, FormatType::InlineLinkText),
                    mk_close(cc, FormatType::InlineLink),
                    Ev::Chars(ent(c)),
                ],
                InlineSt { link: 0, ..st },
            )
        }
    } else if st.link == 4 {
        if c == ']' {
            (
                seq![mk_close(cc, FormatType::InlineLinkText), mk_close(cc, FormatType::InlineLink)],
                InlineSt { link: 0, ..st },
            )
        } else {
            (seq![Ev::Chars(ent(c))], st)
        }
    } else {
        if c == '\\' {
            (Seq::<Ev>::empty(), InlineSt { link: 1, ..st })
        } else if c == '*' {
            (seq![toggle_ev(cc, st.bold, FormatType::InlineBold)], InlineSt { bold: !st.bold, ..st })
        } else if c == '_' {
            (
                seq![toggle_ev(cc, st.italic, FormatType::InlineItalic)],
                InlineSt { italic: !st.italic, ..st },
            )
        } else if c == '`' {
            (seq![toggle_ev(cc, st.code, FormatType::InlineCode)], InlineSt { code: !st.code, ..st })
        } else {
            (seq![Ev::Chars(ent(c))], st)
        }
    }
}

/// The events of scanning `s[i..]` from state `st`, and the state the scan
/// ends in.
pub open spec fn inline_scan(
    s: Seq<char>,
    i: int,
    st: InlineSt,
    esc: Option<char>,
    cc: bool,
) -> (Seq<Ev>, InlineSt)
    decreases s.len() - i,
{
    if i < 0 || i >= s.len() {
        (Seq::<Ev>::empty(), st)
    } else {
        let stp = inline_step(s, i, st, esc, cc);
        let rest = inline_scan(s, i + 1, stp.1, esc, cc);
        (stp.0 + rest.0, rest.1)
    }
}

/// The events of rendering one whole line of text.
pub open spec fn inline_events(s: Seq<char>, esc: Option<char>, cc: bool) -> Seq<Ev> {
    inline_scan(s, 0, inline_init(), esc, cc).0
}

/// The state a whole-line scan ends in.
pub open spec fn inline_final(s: Seq<char>, esc: Option<char>, cc: bool) -> InlineSt {
    inline_scan(s, 0, inline_init(), esc, cc).1
}

/// The escape character the tokenizer sees under backend `E`: the code
/// backend's when inside a code block, the backend's own otherwise.
pub open spec fn inline_esc<E: FormatEngine>(cc: bool) -> Option<char> {
    if cc {
        E::spec_code_escape()
    } else {
        E::spec_escape()
    }
}

/// A well-formed inline state at position `i`: the recorded URL start lies
/// before the scan position.
pub open spec fn inline_wf(st: InlineSt, i: int) -> bool {
    0 <= st.link <= 4 && (st.link == 2 ==> 0 <= st.lstart <= i) && (st.link == 3 ==> 1 <= i
        && 0 <= st.lstart <= i - 1)
}

pub proof fn lemma_inline_step_wf(s: Seq<char>, i: int, st: InlineSt, esc: Option<char>, cc: bool)
    requires
        0 <= i < s.len(),
        inline_wf(st, i),
    ensures
        inline_wf(inline_step(s, i, st, esc, cc).1, i + 1),
{
}

/// Appends the open markup of `t` to `out`.
fn emit_open<E: FormatEngine>(out: &mut Vec<char>, t: FormatType, cc: bool)
    ensures
        final(out)@ == old(out)@ + ev_chars::<E>(mk_open(cc, t)),
{
    let m = if cc {
        E::code_begin(t)
    } else {
        E::begin(t)
    };
    push_str(out, m);
}

/// Appends the close markup of `t` to `out`.
fn emit_close<E: FormatEngine>(out: &mut Vec<char>, t: FormatType, cc: bool)
    ensures
        final(out)@ == old(out)@ + ev_chars::<E>(mk_close(cc, t)),
{
    let m = if cc {
        E::code_end(t)
    } else {
        E::end(t)
    };
    push_str(out, m);
}

/// Appends one literal character, entity-escaped if HTML-special.
fn push_ent(out: &mut Vec<char>, c: char)
    ensures
        final(out)@ == old(out)@ + ent(c),
{
    if c == '&' {
        push_str(out, "&amp;");
        proof {
            reveal_strlit("&amp;");
            assert("&amp;"@ =~= ent(c));
        }
    } else if c == '<' {
        push_str(out, "&lt;");
        proof {
            reveal_strlit("&lt;");
            assert("&lt;"@ =~= ent(c));
        }
    } else if c == '>' {
        push_str(out, "&gt;");
        proof {
            reveal_strlit("&gt;");
            assert("&gt;"@ =~= ent(c));
        }
    } else {
        out.push(c);
        proof {
            assert(out@ =~= old(out)@ + ent(c));
        }
    }
}

/// Renders one line of text through the inline-span tokenizer, appending
/// the produced markup to `out`. Inside a code block (`cc`), the code
/// backend's markup and escape character are used.
#[verifier::rlimit(60)]
pub fn render_inline_into<E: FormatEngine>(out: &mut Vec<char>, s: &Vec<char>, cc: bool)
    ensures
        final(out)@ == old(out)@ + render_evs::<E>(
            inline_events(s@, inline_esc::<E>(cc), cc),
        ),
{
    let ghost gesc = inline_esc::<E>(cc);
    let esc: Option<char> = if cc {
        E::code_escape()
    } else {
        E::escape()
    };
    let mut bold = false;
    let mut italic = false;
    let mut code = false;
    let mut link: usize = 0;
    let mut lstart: usize = 0;
    let mut lit = false;
    let ghost mut st = inline_init();
    let n = s.len();
    let mut i: usize = 0;
    while i < n
        invariant
            n == s@.len(),
            i <= n,
            esc == gesc,
            st == (InlineSt {
                bold: bold,
                italic: italic,
                code: code,
                link: link as int,
                lstart: lstart as int,
                lit: lit,
            }),
            inline_wf(st, i as int),
            out@ + render_evs::<E>(inline_scan(s@, i as int, st, gesc, cc).0) == old(out)@
                + render_evs::<E>(inline_events(s@, gesc, cc)),
        decreases n - i,
    {
        let c = s[i];
        let ghost st0 = st;
        proof {
            let stp = inline_step(s@, i as int, st0, gesc, cc);
            let rest = inline_scan(s@, i + 1, stp.1, gesc, cc);
            assert(inline_scan(s@, i as int, st0, gesc, cc).0 == stp.0 + rest.0);
            lemma_render_app::<E>(stp.0, rest.0);
            lemma_inline_step_wf(s@, i as int, st0, gesc, cc);
            st = stp.1;
        }
        let is_esc = match esc {
            Some(e) => e == c,
            None => false,
        };
        proof {
            assert(is_esc == (gesc == Some(c)));
        }
        if lit {
            push_ent(out, c);
            lit = false;
            proof {
                lemma_render_one::<E>(Ev::Chars(ent(c)));
                assert(inline_step(s@, i as int, st0, gesc, cc).0 =~= seq![Ev::Chars(ent(c))]);
            }
        } else if is_esc {
            lit = true;
            proof {
                assert(render_evs::<E>(inline_step(s@, i as int, st0, gesc, cc).0) =~= Seq::<
                    char,
                >::empty());
            }
        } else if link == 1 {
            if c == '(' {
                emit_open::<E>(out, FormatType::InlineLink, cc);
                emit_open::<E>(out, FormatType::InlineLinkUrl, cc);
                link = 2;
                lstart = i + 1;
                proof {
                    lemma_render_two::<E>(
                        mk_open(cc, FormatType::InlineLink),
                        mk_open(cc, FormatType::InlineLinkUrl),
                    );
                }
            } else if c == '[' {
                emit_open::<E>(out, FormatType::InlineLink, cc);
                emit_open::<E>(out, FormatType::InlineLinkText, cc);
                link = 4;
                proof {
                    lemma_render_two::<E>(
                        mk_open(cc, FormatType::InlineLink),
                        mk_open(cc, FormatType::InlineLinkText),
                    );
                }
            } else {
                push_ent(out, c);
                link = 0;
                proof {
                    lemma_render_one::<E>(Ev::Chars(ent(c)));
                }
            }
        } else if link == 2 {
            if c == ')' {
                emit_close::<E>(out, FormatType::InlineLinkUrl, cc);
                link = 3;
                proof {
                    lemma_render_one::<E>(mk_close(cc, FormatType::InlineLinkUrl));
                }
            } else if c == '*' {
                if bold {
                    emit_close::<E>(out, FormatType::InlineBold, cc);
                } else {
                    emit_open::<E>(out, FormatType::InlineBold, cc);
                }
                bold = !bold;
                proof {
                    lemma_render_one::<E>(toggle_ev(cc, st0.bold, FormatType::InlineBold));
                }
            } else if c == '_' {
                if italic {
                    emit_close::<E>(out, FormatType::InlineItalic, cc);
                } else {
                    emit_open::<E>(out, FormatType::InlineItalic, cc);
                }
                italic = !italic;
                proof {
                    lemma_render_one::<E>(toggle_ev(cc, st0.italic, FormatType::InlineItalic));
                }
            } else if c == '`' {
                if code {
                    emit_close::<E>(out, FormatType::InlineCode, cc);
                } else {
                    emit_open::<E>(out, FormatType::InlineCode, cc);
                }
                code = !code;
                proof {
                    lemma_render_one::<E>(toggle_ev(cc, st0.code, FormatType::InlineCode));
                }
            } else {
                push_ent(out, c);
                proof {
                    lemma_render_one::<E>(Ev::Chars(ent(c)));
                }
            }
        } else if link == 3 {
            if c == '[' {
                emit_open::<E>(out, FormatType::InlineLinkText, cc);
                link = 4;
                proof {
                    lemma_render_one::<E>(mk_open(cc, FormatType::InlineLinkText));
                }
            } else {
                emit_open::<E>(out, FormatType::InlineLinkText, cc);
                push_range(out, s, lstart, i - 1);
                emit_close::<E>(out, FormatType::InlineLinkText, cc);
                emit_close::<E>(out, FormatType::InlineLink, cc);
                push_ent(out, c);
                link = 0;
                proof {
                    let evs = inline_step(s@, i as int, st0, gesc, cc).0;
                    assert(evs =~= seq![mk_open(cc, FormatType::InlineLinkText)] + seq![
                        Ev::Chars(s@.subrange(st0.lstart, i - 1)),
                    ] + seq![mk_close(cc, FormatType::InlineLinkText)] + seq![
                        mk_close(cc, FormatType::InlineLink),
                    ] + seq![Ev::Chars(ent(c))]);
                    lemma_render_app::<E>(
                        seq![mk_open(cc, FormatType::InlineLinkText)] + seq![
                            Ev::Chars(s@.subrange(st0.lstart, i - 1)),
                        ] + seq![mk_close(cc, FormatType::InlineLinkText)] + seq![
                            mk_close(cc, FormatType::InlineLink),
                        ],
                        seq![Ev::Chars(ent(c))],
                    );
                    lemma_render_app::<E>(
                        seq![mk_open(cc, FormatType::InlineLinkText)] + seq![
                            Ev::Chars(s@.subrange(st0.lstart, i - 1)),
                        ] + seq![mk_close(cc, FormatType::InlineLinkText)],
                        seq![mk_close(cc, FormatType::InlineLink)],
                    );
                    lemma_render_app::<E>(
                        seq![mk_open(cc, FormatType::InlineLinkText)] + seq![
                            Ev::Chars(s@.subrange(st0.lstart, i - 1)),
                        ],
                        seq![mk_close(cc, FormatType::InlineLinkText)],
                    );
                    lemma_render_app::<E>(
                        seq![mk_open(cc, FormatType::InlineLinkText)],
                        seq![Ev::Chars(s@.subrange(st0.lstart, i - 1))],
                    );
                    lemma_render_one::<E>(mk_open(cc, FormatType::InlineLinkText));
                    lemma_render_one::<E>(Ev::Chars(s@.subrange(st0.lstart, i - 1)));
                    lemma_render_one::<E>(mk_close(cc, FormatType::InlineLinkText));
                    lemma_render_one::<E>(mk_close(cc, FormatType::InlineLink));
                    lemma_render_one::<E>(Ev::Chars(ent(c)));
                }
            }
        } else if link == 4 {
            if c == ']' {
                emit_close::<E>(out, FormatType::InlineLinkText, cc);
                emit_close::<E>(out, FormatType::InlineLink, cc);
                link = 0;
                proof {
                    lemma_render_two::<E>(
                        mk_close(cc, FormatType::InlineLinkText),
                        mk_close(cc, FormatType::InlineLink),
                    );
                }
            } else {
                push_ent(out, c);
                proof {
                    lemma_render_one::<E>(Ev::Chars(ent(c)));
                }
            }
        } else {
            if c == '\\' {
                link = 1;
                proof {
                    assert(render_evs::<E>(inline_step(s@, i as int, st0, gesc, cc).0) =~= Seq::<
                        char,
                    >::empty());
                }
            } else if c == '*' {
                if bold {
                    emit_close::<E>(out, FormatType::InlineBold, cc);
                } else {
                    emit_open::<E>(out, FormatType::InlineBold, cc);
                }
                bold = !bold;
                proof {
                    lemma_render_one::<E>(toggle_ev(cc, st0.bold, FormatType::InlineBold));
                }
            } else if c == '_' {
                if italic {
                    emit_close::<E>(out, FormatType::InlineItalic, cc);
                } else {
                    emit_open::<E>(out, FormatType::InlineItalic, cc);
                }
                italic = !italic;
                proof {
                    lemma_render_one::<E>(toggle_ev(cc, st0.italic, FormatType::InlineItalic));
                }
            } else if c == '`' {
                if code {
                    emit_close::<E>(out, FormatType::InlineCode, cc);
                } else {
                    emit_open::<E>(out, FormatType::InlineCode, cc);
                }
                code = !code;
                proof {
                    lemma_render_one::<E>(toggle_ev(cc, st0.code, FormatType::InlineCode));
                }
            } else {
                push_ent(out, c);
                proof {
                    lemma_render_one::<E>(Ev::Chars(ent(c)));
                }
            }
        }
        i = i + 1;
    }
}

/// The document-scoped state of the block-level classifier: which
/// multi-line construct is currently open.
#[derive(Clone, Copy, Debug, PartialEq, Eq, Structural)]
pub enum BlockState {
    Empty,
    Paragraph,
    Codeblock,
    List(ListType),
}

/// A document-level comment line: `//!` after trimming.
pub open spec fn is_comment_line(t: Seq<char>) -> bool {
    t.len() >= 3 && t[0] == '/' && t[1] == '/' && t[2] == '!'
}

/// An author-card candidate line: `///` after trimming.
pub open spec fn is_card_line(t: Seq<char>) -> bool {
    t.len() >= 3 && t[0] == '/' && t[1] == '/' && t[2] == '/'
}

/// A code-fence line: three backquotes after trimming.
pub open spec fn is_fence_line(t: Seq<char>) -> bool {
    t.len() >= 3 && t[0] == '`' && t[1] == '`' && t[2] == '`'
}

/// The three author-card fields of a `///` line, when its remainder splits
/// into exactly three `/`-separated parts; each field is trimmed.
pub open spec fn card_fields_of(t: Seq<char>) -> Option<(Seq<char>, Seq<char>, Seq<char>)> {
    let n = t.len() as int;
    let k1 = find_from(t, '/', 3);
    if k1 == n {
        None
    } else {
        let k2 = find_from(t, '/', k1 + 1);
        if k2 == n {
            None
        } else if find_from(t, '/', k2 + 1) != n {
            None
        } else {
            Some((trim_sub(t, 3, k1), trim_sub(t, k1 + 1, k2), trim_sub(t, k2 + 1, n)))
        }
    }
}

/// The events of an author card: avatar, name, date and category, each
/// wrapped in its own construct.
pub open spec fn card_evs(name: Seq<char>, date: Seq<char>, cat: Seq<char>) -> Seq<Ev> {
    seq![
        Ev::Open(FormatType::CardAuthor),
        Ev::Open(FormatType::CardAuthorAvatar),
        Ev::Chars(seq!['/'] + ascii_only(name) + seq!['.', 'j', 'p', 'g']),
        Ev::Close(FormatType::CardAuthorAvatar),
        Ev::Open(FormatType::CardAuthorName),
        Ev::Chars(name),
        Ev::Close(FormatType::CardAuthorName),
        Ev::Open(FormatType::CardAuthorDate),
        Ev::Chars(date),
        Ev::Close(FormatType::CardAuthorDate),
        Ev::Open(FormatType::CardAuthorCategory),
        Ev::Chars(cat),
        Ev::Close(FormatType::CardAuthorCategory),
        Ev::Close(FormatType::CardAuthor),
    ]
}

/// The content of a line after a `k`-character marker, with the whitespace
/// that follows the marker skipped.
pub open spec fn after_marker(t: Seq<char>, k: int) -> Seq<char> {
    t.subrange(ws_run_to(t, k, t.len() as int), t.len() as int)
}

/// The newline event.
pub open spec fn nl_ev() -> Ev {
    Ev::Chars(seq!['\n'])
}

/// The close events a blank line (or the end of input) emits for the block
/// that is currently open.
pub open spec fn close_evs(st: BlockState) -> Seq<Ev> {
    match st {
        BlockState::Empty => Seq::<Ev>::empty(),
        BlockState::Paragraph => seq![Ev::Close(FormatType::Paragraph)],
        BlockState::Codeblock => seq![
            Ev::Close(FormatType::CodeBlockContents),
            Ev::Close(FormatType::CodeBlock),
        ],
        BlockState::List(k) => seq![
            Ev::Close(FormatType::ListItem(k)),
            Ev::Close(FormatType::List(k)),
        ],
    }
}

/// The events of opening a list with its first item.
pub open spec fn list_open_evs(
    k: ListType,
    content: Seq<char>,
    esc_n: Option<char>,
) -> Seq<Ev> {
    seq![Ev::Open(FormatType::List(k)), Ev::Open(FormatType::ListItem(k))] + inline_events(
        content,
        esc_n,
        false,
    ) + seq![nl_ev()]
}

/// The events of starting the next item of an open list.
pub open spec fn list_item_evs(k: ListType, content: Seq<char>, esc_n: Option<char>) -> Seq<Ev> {
    seq![Ev::Close(FormatType::ListItem(k)), Ev::Open(FormatType::ListItem(k))] + inline_events(
        content,
        esc_n,
        false,
    ) + seq![nl_ev()]
}

/// One step of the block classifier: the events emitted for the line `raw`
/// in state `st`, and the state that follows. Classification looks at the
/// trimmed line; code-block bodies render the raw, untrimmed line under
/// the code-block backend.
pub open spec fn line_evs(
    raw: Seq<char>,
    st: BlockState,
    esc_n: Option<char>,
    esc_c: Option<char>,
) -> (Seq<Ev>, BlockState) {
    let t = trim_of(raw);
    if st == BlockState::Codeblock {
        if t == seq!['`', '`', '`'] {
            (close_evs(st), BlockState::Empty)
        } else {
            (inline_events(raw, esc_c, true) + seq![nl_ev()], BlockState::Codeblock)
        }
    } else if t.len() == 0 {
        (close_evs(st), BlockState::Empty)
    } else if st == BlockState::Empty {
        if is_comment_line(t) {
            (Seq::<Ev>::empty(), BlockState::Empty)
        } else if is_card_line(t) {
            match card_fields_of(t) {
                Some(f) => (card_evs(f.0, f.1, f.2), BlockState::Empty),
                None => (Seq::<Ev>::empty(), BlockState::Empty),
            }
        } else if t[0] == '#' {
            let cnt = hash_run(t, 0);
            let lvl: u8 = if cnt >= 6 {
                6u8
            } else {
                cnt as u8
            };
            (
                seq![Ev::Open(FormatType::Heading(lvl))] + inline_events(
                    after_marker(t, cnt),
                    esc_n,
                    false,
                ) + seq![Ev::Close(FormatType::Heading(lvl))],
                BlockState::Empty,
            )
        } else if t[0] == '-' {
            (
                list_open_evs(ListType::Unordered, after_marker(t, 1), esc_n),
                BlockState::List(ListType::Unordered),
            )
        } else if t[0] == '@' {
            (
                list_open_evs(ListType::Ordered, after_marker(t, 1), esc_n),
                BlockState::List(ListType::Ordered),
            )
        } else if is_fence_line(t) {
            (
                seq![Ev::Open(FormatType::CodeBlock), Ev::Open(FormatType::CodeBlockMeta)]
                    + inline_events(after_marker(t, 3), esc_n, false) + seq![
                    Ev::Close(FormatType::CodeBlockMeta),
                    Ev::Open(FormatType::CodeBlockContents),
                ],
                BlockState::Codeblock,
            )
        } else {
            (
                seq![Ev::Open(FormatType::Paragraph)] + inline_events(t, esc_n, false) + seq![
                    nl_ev(),
                ],
                BlockState::Paragraph,
            )
        }
    } else if st == BlockState::List(ListType::Unordered) && t[0] == '-' {
        (list_item_evs(ListType::Unordered, after_marker(t, 1), esc_n), st)
    } else if st == BlockState::List(ListType::Ordered) && t[0] == '@' {
        (list_item_evs(ListType::Ordered, after_marker(t, 1), esc_n), st)
    } else {
        (inline_events(t, esc_n, false) + seq![nl_ev()], st)
    }
}

/// The events of rendering the lines `ls` from state `st`; the end of
/// input closes any still-open block exactly as a blank line would.
pub open spec fn doc_evs(
    ls: Seq<Seq<char>>,
    st: BlockState,
    esc_n: Option<char>,
    esc_c: Option<char>,
) -> Seq<Ev>
    decreases ls.len(),
{
    if ls.len() == 0 {
        close_evs(st)
    } else {
        let le = line_evs(ls[0], st, esc_n, esc_c);
        le.0 + doc_evs(ls.drop_first(), le.1, esc_n, esc_c)
    }
}

/// The events of rendering a whole document.
pub open spec fn doc_events(s: Seq<char>, esc_n: Option<char>, esc_c: Option<char>) -> Seq<Ev> {
    doc_evs(lines_of(s), BlockState::Empty, esc_n, esc_c)
}

/// The markup a whole document renders to under backend `E`.
pub open spec fn doc_render<E: FormatEngine>(s: Seq<char>) -> Seq<char> {
    render_evs::<E>(doc_events(s, E::spec_escape(), E::spec_code_escape()))
}

/// The markup one line of text renders to under backend `E`.
pub open spec fn text_render<E: FormatEngine>(s: Seq<char>) -> Seq<char> {
    render_evs::<E>(inline_events(s, E::spec_escape(), false))
}

proof fn lemma_render_card<E: FormatEngine>(name: Seq<char>, date: Seq<char>, cat: Seq<char>)
    ensures
        render_evs::<E>(card_evs(name, date, cat)) == E::spec_begin(FormatType::CardAuthor)
            + E::spec_begin(FormatType::CardAuthorAvatar) + (seq!['/'] + ascii_only(name) + seq![
            '.',
            'j',
            'p',
            'g',
        ]) + E::spec_end(FormatType::CardAuthorAvatar) + E::spec_begin(FormatType::CardAuthorName)
            + name + E::spec_end(FormatType::CardAuthorName) + E::spec_begin(
            FormatType::CardAuthorDate,
        ) + date + E::spec_end(FormatType::CardAuthorDate) + E::spec_begin(
            FormatType::CardAuthorCategory,
        ) + cat + E::spec_end(FormatType::CardAuthorCategory) + E::spec_end(FormatType::CardAuthor),
{
    let p1 = seq![Ev::Open(FormatType::CardAuthor), Ev::Open(FormatType::CardAuthorAvatar)];
    let p2 = seq![
        Ev::Chars(seq!['/'] + ascii_only(name) + seq!['.', 'j', 'p', 'g']),
        Ev::Close(FormatType::CardAuthorAvatar),
    ];
    let p3 = seq![Ev::Open(FormatType::CardAuthorName), Ev::Chars(name)];
    let p4 = seq![Ev::Close(FormatType::CardAuthorName), Ev::Open(FormatType::CardAuthorDate)];
    let p5 = seq![Ev::Chars(date), Ev::Close(FormatType::CardAuthorDate)];
    let p6 = seq![Ev::Open(FormatType::CardAuthorCategory), Ev::Chars(cat)];
    let p7 = seq![Ev::Close(FormatType::CardAuthorCategory), Ev::Close(FormatType::CardAuthor)];
    assert(card_evs(name, date, cat) =~= p1 + p2 + p3 + p4 + p5 + p6 + p7);
    lemma_render_app::<E>(p1 + p2 + p3 + p4 + p5 + p6, p7);
    lemma_render_app::<E>(p1 + p2 + p3 + p4 + p5, p6);
    lemma_render_app::<E>(p1 + p2 + p3 + p4, p5);
    lemma_render_app::<E>(p1 + p2 + p3, p4);
    lemma_render_app::<E>(p1 + p2, p3);
    lemma_render_app::<E>(p1, p2);
    lemma_render_two::<E>(p1[0], p1[1]);
    lemma_render_two::<E>(p2[0], p2[1]);
    lemma_render_two::<E>(p3[0], p3[1]);
    lemma_render_two::<E>(p4[0], p4[1]);
    lemma_render_two::<E>(p5[0], p5[1]);
    lemma_render_two::<E>(p6[0], p6[1]);
    lemma_render_two::<E>(p7[0], p7[1]);
    assert(p1 =~= seq![p1[0], p1[1]]);
    assert(p2 =~= seq![p2[0], p2[1]]);
    assert(p3 =~= seq![p3[0], p3[1]]);
    assert(p4 =~= seq![p4[0], p4[1]]);
    assert(p5 =~= seq![p5[0], p5[1]]);
    assert(p6 =~= seq![p6[0], p6[1]]);
    assert(p7 =~= seq![p7[0], p7[1]]);
    assert(render_evs::<E>(card_evs(name, date, cat)) =~= E::spec_begin(FormatType::CardAuthor)
        + E::spec_begin(FormatType::CardAuthorAvatar) + (seq!['/'] + ascii_only(name) + seq![
        '.',
        'j',
        'p',
        'g',
    ]) + E::spec_end(FormatType::CardAuthorAvatar) + E::spec_begin(FormatType::CardAuthorName)
        + name + E::spec_end(FormatType::CardAuthorName) + E::spec_begin(
        FormatType::CardAuthorDate,
    ) + date + E::spec_end(FormatType::CardAuthorDate) + E::spec_begin(
        FormatType::CardAuthorCategory,
    ) + cat + E::spec_end(FormatType::CardAuthorCategory) + E::spec_end(FormatType::CardAuthor));
}

/// Appends the markup of one author card to `out`.
#[verifier::rlimit(60)]
fn emit_card<E: FormatEngine>(out: &mut Vec<char>, name: &Vec<char>, date: &Vec<char>, cat: &Vec<char>)
    ensures
        final(out)@ == old(out)@ + render_evs::<E>(card_evs(name@, date@, cat@)),
{
    emit_open::<E>(out, FormatType::CardAuthor, false);
    emit_open::<E>(out, FormatType::CardAuthorAvatar, false);
    out.push('/');
    push_ascii_of(out, name);
    out.push('.');
    out.push('j');
    out.push('p');
    out.push('g');
    emit_close::<E>(out, FormatType::CardAuthorAvatar, false);
    emit_open::<E>(out, FormatType::CardAuthorName, false);
    push_range(out, name, 0, name.len());
    emit_close::<E>(out, FormatType::CardAuthorName, false);
    emit_open::<E>(out, FormatType::CardAuthorDate, false);
    push_range(out, date, 0, date.len());
    emit_close::<E>(out, FormatType::CardAuthorDate, false);
    emit_open::<E>(out, FormatType::CardAuthorCategory, false);
    push_range(out, cat, 0, cat.len());
    emit_close::<E>(out, FormatType::CardAuthorCategory, false);
    emit_close::<E>(out, FormatType::CardAuthor, false);
    proof {
        lemma_render_card::<E>(name@, date@, cat@);
        assert(name@.subrange(0, name@.len() as int) =~= name@);
        assert(date@.subrange(0, date@.len() as int) =~= date@);
        assert(cat@.subrange(0, cat@.len() as int) =~= cat@);
        assert(final(out)@ =~= old(out)@ + render_evs::<E>(card_evs(name@, date@, cat@)));
    }
}

/// Appends the close markup of the block that is open in `st`.
fn emit_block_close<E: FormatEngine>(out: &mut Vec<char>, st: BlockState)
    ensures
        final(out)@ == old(out)@ + render_evs::<E>(close_evs(st)),
{
    match st {
        BlockState::Empty => {
            proof {
                assert(old(out)@ + render_evs::<E>(close_evs(st)) =~= old(out)@);
            }
        },
        BlockState::Paragraph => {
            emit_close::<E>(out, FormatType::Paragraph, false);
            proof {
                lemma_render_one::<E>(Ev::Close(FormatType::Paragraph));
            }
        },
        BlockState::Codeblock => {
            emit_close::<E>(out, FormatType::CodeBlockContents, false);
            emit_close::<E>(out, FormatType::CodeBlock, false);
            proof {
                lemma_render_two::<E>(
                    Ev::Close(FormatType::CodeBlockContents),
                    Ev::Close(FormatType::CodeBlock),
                );
            }
        },
        BlockState::List(k) => {
            emit_close::<E>(out, FormatType::ListItem(k), false);
            emit_close::<E>(out, FormatType::List(k), false);
            proof {
                lemma_render_two::<E>(
                    Ev::Close(FormatType::ListItem(k)),
                    Ev::Close(FormatType::List(k)),
                );
            }
        },
    }
}

/// Renders a whole document, appending the produced markup to `out`: a
/// single forward pass over the lines of `s`, classifying each line and
/// delegating content to the inline-span tokenizer.
#[verifier::rlimit(100)]
pub fn render_document_into<E: FormatEngine>(out: &mut Vec<char>, s: &Vec<char>)
    ensures
        final(out)@ == old(out)@ + doc_render::<E>(s@),
{
    let ghost esc_n = E::spec_escape();
    let ghost esc_c = E::spec_code_escape();
    let mut stt = BlockState::Empty;
    let mut i: usize = 0;
    while i < s.len()
        invariant
            i <= s@.len(),
            esc_n == E::spec_escape(),
            esc_c == E::spec_code_escape(),
            out@ + render_evs::<E>(doc_evs(lines_from(s@, i as int), stt, esc_n, esc_c)) == old(
                out,
            )@ + render_evs::<E>(doc_evs(lines_of(s@), BlockState::Empty, esc_n, esc_c)),
        decreases s@.len() - i,
    {
        let k = find_char(s, '\n', i);
        let mut raw = copy_range(s, i, k);
        let ghost ni: int = if k < s@.len() {
            k + 1
        } else {
            s@.len() as int
        };
        if k < s.len() {
            if raw.len() > 0 && raw[raw.len() - 1] == '\r' {
                raw.pop();
            }
            proof {
                assert(raw@ =~= strip_cr(s@.subrange(i as int, k as int)));
            }
        }
        proof {
            if k < s@.len() {
                assert(lines_from(s@, i as int) == seq![raw@] + lines_from(s@, ni));
            } else {
                assert(raw@ == s@.subrange(i as int, s@.len() as int));
                assert(lines_from(s@, ni) =~= Seq::<Seq<char>>::empty());
                assert(lines_from(s@, i as int) =~= seq![raw@] + lines_from(s@, ni));
            }
            let rem = lines_from(s@, i as int);
            assert(rem[0] == raw@);
            assert(rem.drop_first() =~= lines_from(s@, ni));
            let le = line_evs(raw@, stt, esc_n, esc_c);
            assert(doc_evs(rem, stt, esc_n, esc_c) == le.0 + doc_evs(
                lines_from(s@, ni),
                le.1,
                esc_n,
                esc_c,
            ));
            lemma_render_app::<E>(le.0, doc_evs(lines_from(s@, ni), le.1, esc_n, esc_c));
        }
        let ghost st0 = stt;
        let t = trim_line(&raw);
        if stt == BlockState::Codeblock {
            let exact = t.len() == 3 && t[0] == '`' && t[1] == '`' && t[2] == '`';
            proof {
                if t@ == seq!['`', '`', '`'] {
                    assert(t@.len() == 3 && t@[0] == '`' && t@[1] == '`' && t@[2] == '`');
                }
                if exact {
                    assert(t@ =~= seq!['`', '`', '`']);
                }
            }
            if exact {
                emit_block_close::<E>(out, BlockState::Codeblock);
                stt = BlockState::Empty;
            } else {
                render_inline_into::<E>(out, &raw, true);
                out.push('\n');
                proof {
                    lemma_render_app::<E>(inline_events(raw@, esc_c, true), seq![nl_ev()]);
                    lemma_render_one::<E>(nl_ev());
                    assert(line_evs(raw@, st0, esc_n, esc_c).0 == inline_events(raw@, esc_c, true)
                        + seq![nl_ev()]);
                }
            }
        } else if t.len() == 0 {
            emit_block_close::<E>(out, stt);
            stt = BlockState::Empty;
        } else if stt == BlockState::Empty {
            if t.len() >= 3 && t[0] == '/' && t[1] == '/' && t[2] == '!' {
                proof {
                    assert(render_evs::<E>(line_evs(raw@, st0, esc_n, esc_c).0) =~= Seq::<
                        char,
                    >::empty());
                }
            } else if t.len() >= 3 && t[0] == '/' && t[1] == '/' && t[2] == '/' {
                let k1 = find_char(&t, '/', 3);
                let mut matched = false;
                if k1 < t.len() {
                    let k2 = find_char(&t, '/', k1 + 1);
                    if k2 < t.len() {
                        let k3 = find_char(&t, '/', k2 + 1);
                        if k3 == t.len() {
                            matched = true;
                            let name = trim_range(&t, 3, k1);
                            let date = trim_range(&t, k1 + 1, k2);
                            let cat = trim_range(&t, k2 + 1, t.len());
                            emit_card::<E>(out, &name, &date, &cat);
                            proof {
                                assert(card_fields_of(t@) == Some(
                                    (name@, date@, cat@),
                                ));
                                assert(line_evs(raw@, st0, esc_n, esc_c).0 == card_evs(
                                    name@,
                                    date@,
                                    cat@,
                                ));
                            }
                        }
                    }
                }
                if !matched {
                    proof {
                        assert(card_fields_of(t@) is None);
                        assert(render_evs::<E>(line_evs(raw@, st0, esc_n, esc_c).0) =~= Seq::<
                            char,
                        >::empty());
                    }
                }
            } else if t[0] == '#' {
                let cnt = hash_to(&t, 0);
                let lvl: u8 = if cnt >= 6 {
                    6u8
                } else {
                    cnt as u8
                };
                let a = ws_to(&t, cnt, t.len());
                let content = copy_range(&t, a, t.len());
                emit_open::<E>(out, FormatType::Heading(lvl), false);
                render_inline_into::<E>(out, &content, false);
                emit_close::<E>(out, FormatType::Heading(lvl), false);
                proof {
                    assert(content@ == after_marker(t@, cnt as int));
                    let b = inline_events(after_marker(t@, cnt as int), esc_n, false);
                    lemma_render_app::<E>(
                        seq![Ev::Open(FormatType::Heading(lvl))] + b,
                        seq![Ev::Close(FormatType::Heading(lvl))],
                    );
                    lemma_render_app::<E>(seq![Ev::Open(FormatType::Heading(lvl))], b);
                    lemma_render_one::<E>(Ev::Open(FormatType::Heading(lvl)));
                    lemma_render_one::<E>(Ev::Close(FormatType::Heading(lvl)));
                }
            } else if t[0] == '-' {
                let a = ws_to(&t, 1, t.len());
                let content = copy_range(&t, a, t.len());
                emit_open::<E>(out, FormatType::List(ListType::Unordered), false);
                emit_open::<E>(out, FormatType::ListItem(ListType::Unordered), false);
                render_inline_into::<E>(out, &content, false);
                out.push('\n');
                stt = BlockState::List(ListType::Unordered);
                proof {
                    let b = inline_events(after_marker(t@, 1), esc_n, false);
                    let h = seq![
                        Ev::Open(FormatType::List(ListType::Unordered)),
                        Ev::Open(FormatType::ListItem(ListType::Unordered)),
                    ];
                    lemma_render_app::<E>(h + b, seq![nl_ev()]);
                    lemma_render_app::<E>(h, b);
                    lemma_render_two::<E>(h[0], h[1]);
                    assert(h =~= seq![h[0], h[1]]);
                    lemma_render_one::<E>(nl_ev());
                }
            } else if t[0] == '@' {
                let a = ws_to(&t, 1, t.len());
                let content = copy_range(&t, a, t.len());
                emit_open::<E>(out, FormatType::List(ListType::Ordered), false);
                emit_open::<E>(out, FormatType::ListItem(ListType::Ordered), false);
                render_inline_into::<E>(out, &content, false);
                out.push('\n');
                stt = BlockState::List(ListType::Ordered);
                proof {
                    let b = inline_events(after_marker(t@, 1), esc_n, false);
                    let h = seq![
                        Ev::Open(FormatType::List(ListType::Ordered)),
                        Ev::Open(FormatType::ListItem(ListType::Ordered)),
                    ];
                    lemma_render_app::<E>(h + b, seq![nl_ev()]);
                    lemma_render_app::<E>(h, b);
                    lemma_render_two::<E>(h[0], h[1]);
                    assert(h =~= seq![h[0], h[1]]);
                    lemma_render_one::<E>(nl_ev());
                }
            } else if t.len() >= 3 && t[0] == '`' && t[1] == '`' && t[2] == '`' {
                let a = ws_to(&t, 3, t.len());
                let content = copy_range(&t, a, t.len());
                emit_open::<E>(out, FormatType::CodeBlock, false);
                emit_open::<E>(out, FormatType::CodeBlockMeta, false);
                render_inline_into::<E>(out, &content, false);
                emit_close::<E>(out, FormatType::CodeBlockMeta, false);
                emit_open::<E>(out, FormatType::CodeBlockContents, false);
                stt = BlockState::Codeblock;
                proof {
                    let b = inline_events(after_marker(t@, 3), esc_n, false);
                    let h = seq![
                        Ev::Open(FormatType::CodeBlock),
                        Ev::Open(FormatType::CodeBlockMeta),
                    ];
                    let q = seq![
                        Ev::Close(FormatType::CodeBlockMeta),
                        Ev::Open(FormatType::CodeBlockContents),
                    ];
                    lemma_render_app::<E>(h + b, q);
                    lemma_render_app::<E>(h, b);
                    lemma_render_two::<E>(h[0], h[1]);
                    lemma_render_two::<E>(q[0], q[1]);
                    assert(h =~= seq![h[0], h[1]]);
                    assert(q =~= seq![q[0], q[1]]);
                }
            } else {
                emit_open::<E>(out, FormatType::Paragraph, false);
                render_inline_into::<E>(out, &t, false);
                out.push('\n');
                stt = BlockState::Paragraph;
                proof {
                    let b = inline_events(t@, esc_n, false);
                    lemma_render_app::<E>(seq![Ev::Open(FormatType::Paragraph)] + b, seq![nl_ev()]);
                    lemma_render_app::<E>(seq![Ev::Open(FormatType::Paragraph)], b);
                    lemma_render_one::<E>(Ev::Open(FormatType::Paragraph));
                    lemma_render_one::<E>(nl_ev());
                }
            }
        } else if stt == BlockState::List(ListType::Unordered) && t[0] == '-' {
            let a = ws_to(&t, 1, t.len());
            let content = copy_range(&t, a, t.len());
            emit_close::<E>(out, FormatType::ListItem(ListType::Unordered), false);
            emit_open::<E>(out, FormatType::ListItem(ListType::Unordered), false);
            render_inline_into::<E>(out, &content, false);
            out.push('\n');
            proof {
                let b = inline_events(after_marker(t@, 1), esc_n, false);
                let h = seq![
                    Ev::Close(FormatType::ListItem(ListType::Unordered)),
                    Ev::Open(FormatType::ListItem(ListType::Unordered)),
                ];
                lemma_render_app::<E>(h + b, seq![nl_ev()]);
                lemma_render_app::<E>(h, b);
                lemma_render_two::<E>(h[0], h[1]);
                assert(h =~= seq![h[0], h[1]]);
                lemma_render_one::<E>(nl_ev());
            }
        } else if stt == BlockState::List(ListType::Ordered) && t[0] == '@' {
            let a = ws_to(&t, 1, t.len());
            let content = copy_range(&t, a, t.len());
            emit_close::<E>(out, FormatType::ListItem(ListType::Ordered), false);
            emit_open::<E>(out, FormatType::ListItem(ListType::Ordered), false);
            render_inline_into::<E>(out, &content, false);
            out.push('\n');
            proof {
                let b = inline_events(after_marker(t@, 1), esc_n, false);
                let h = seq![
                    Ev::Close(FormatType::ListItem(ListType::Ordered)),
                    Ev::Open(FormatType::ListItem(ListType::Ordered)),
                ];
                lemma_render_app::<E>(h + b, seq![nl_ev()]);
                lemma_render_app::<E>(h, b);
                lemma_render_two::<E>(h[0], h[1]);
                assert(h =~= seq![h[0], h[1]]);
                lemma_render_one::<E>(nl_ev());
            }
        } else {
            render_inline_into::<E>(out, &t, false);
            out.push('\n');
            proof {
                let b = inline_events(t@, esc_n, false);
                lemma_render_app::<E>(b, seq![nl_ev()]);
                lemma_render_one::<E>(nl_ev());
                assert(line_evs(raw@, st0, esc_n, esc_c).0 == b + seq![nl_ev()]);
            }
        }
        proof {
            assert(stt == line_evs(raw@, st0, esc_n, esc_c).1);
        }
        if k < s.len() {
            i = k + 1;
        } else {
            i = s.len();
        }
    }
    emit_block_close::<E>(out, stt);
    proof {
        assert(lines_from(s@, s@.len() as int) =~= Seq::<Seq<char>>::empty());
        assert(doc_evs(lines_from(s@, s@.len() as int), stt, esc_n, esc_c) == close_evs(stt));
    }
}

} // verus!
