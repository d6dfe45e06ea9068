//! Global laws of the rendering engine, stated over the event streams the
//! renderers are proved to emit: well-nesting of open/close events,
//! blank-line idempotence, and the heading level clamp.

use vstd::prelude::*;
use crate::format::{FormatType, ListType};
use crate::render::{
    after_marker, card_evs, card_fields_of, close_evs, doc_events, doc_evs, ent, inline_events,
    inline_final, inline_init, inline_scan, inline_step, is_card_line, is_comment_line,
    is_fence_line, line_evs, nl_ev, BlockState, Ev, InlineSt,
};
use crate::scan::{
    ascii_only, hash_run, is_ws, lemma_ws_back_to_bounds, lemma_ws_run_to_bounds, lines_of,
    trim_of, ws_back_to, ws_run_to,
};

verus! {

/// How one event moves the open/close balance of the tag `t`: `+1` for an
/// open of `t`, `-1` for a close of `t`, `0` otherwise.
pub open spec fn tag_delta(ev: Ev, t: FormatType) -> int {
    match ev {
        Ev::Open(u) => if u == t {
            1int
        } else {
            0int
        },
        Ev::CodeOpen(u) => if u == t {
            1int
        } else {
            0int
        },
        Ev::Close(u) => if u == t {
            -1int
        } else {
            0int
        },
        Ev::CodeClose(u) => if u == t {
            -1int
        } else {
            0int
        },
        Ev::Chars(_) => 0int,
    }
}

/// The total open/close balance of the tag `t` over an event stream.
pub open spec fn bal(evs: Seq<Ev>, t: FormatType) -> int
    decreases evs.len(),
{
    if evs.len() == 0 {
        0int
    } else {
        tag_delta(evs[0], t) + bal(evs.drop_first(), t)
    }
}

/// Whether the running open/close balance of `t`, started at `d`, stays
/// within `{0, 1}` over every prefix of the stream: each close of `t` is
/// preceded by its matching open, and no tag is opened twice without an
/// intervening close.
pub open spec fn nested_ok(evs: Seq<Ev>, t: FormatType, d: int) -> bool
    decreases evs.len(),
{
    if evs.len() == 0 {
        true
    } else {
        let d2 = d + tag_delta(evs[0], t);
        0 <= d2 <= 1 && nested_ok(evs.drop_first(), t, d2)
    }
}

/// One of the six inline-span tags.
pub open spec fn is_inline_tag(t: FormatType) -> bool {
    t == FormatType::InlineBold || t == FormatType::InlineItalic || t == FormatType::InlineCode
        || t == FormatType::InlineLink || t == FormatType::InlineLinkUrl
        || t == FormatType::InlineLinkText
}

/// How many opens of the inline tag `t` the state `st` holds unclosed.
pub open spec fn cnt_inline(st: InlineSt, t: FormatType) -> int {
    if t == FormatType::InlineBold {
        if st.bold {
            1int
        } else {
            0int
        }
    } else if t == FormatType::InlineItalic {
        if st.italic {
            1int
        } else {
            0int
        }
    } else if t == FormatType::InlineCode {
        if st.code {
            1int
        } else {
            0int
        }
    } else if t == FormatType::InlineLink {
        if 2 <= st.link <= 4 {
            1int
        } else {
            0int
        }
    } else if t == FormatType::InlineLinkUrl {
        if st.link == 2 {
            1int
        } else {
            0int
        }
    } else if t == FormatType::InlineLinkText {
        if st.link == 4 {
            1int
        } else {
            0int
        }
    } else {
        0int
    }
}

pub proof fn lemma_bal_append(a: Seq<Ev>, b: Seq<Ev>, t: FormatType)
    ensures
        bal(a + b, t) == bal(a, t) + bal(b, t),
    decreases a.len(),
{
    if a.len() == 0 {
        assert(a + b =~= b);
    } else {
        assert((a + b).drop_first() =~= a.drop_first() + b);
        assert((a + b)[0] == a[0]);
        lemma_bal_append(a.drop_first(), b, t);
    }
}

pub proof fn lemma_nested_append(a: Seq<Ev>, b: Seq<Ev>, t: FormatType, d: int)
    requires
        nested_ok(a, t, d),
        nested_ok(b, t, d + bal(a, t)),
    ensures
        nested_ok(a + b, t, d),
    decreases a.len(),
{
    if a.len() == 0 {
        assert(a + b =~= b);
    } else {
        assert((a + b).drop_first() =~= a.drop_first() + b);
        assert((a + b)[0] == a[0]);
        lemma_nested_append(a.drop_first(), b, t, d + tag_delta(a[0], t));
    }
}

proof fn lemma_bal_zero(t: FormatType, d: int)
    ensures
        bal(Seq::<Ev>::empty(), t) == 0,
        nested_ok(Seq::<Ev>::empty(), t, d),
{
}

proof fn lemma_bal_one(e: Ev, t: FormatType, d: int)
    ensures
        bal(seq![e], t) == tag_delta(e, t),
        nested_ok(seq![e], t, d) == (0 <= d + tag_delta(e, t) <= 1),
{
    assert(seq![e].drop_first() =~= Seq::<Ev>::empty());
    assert(seq![e][0] == e);
    lemma_bal_zero(t, d + tag_delta(e, t));
}

proof fn lemma_bal_two(e1: Ev, e2: Ev, t: FormatType, d: int)
    ensures
        bal(seq![e1, e2], t) == tag_delta(e1, t) + tag_delta(e2, t),
        nested_ok(seq![e1, e2], t, d) == (0 <= d + tag_delta(e1, t) <= 1 && 0 <= d + tag_delta(
            e1,
            t,
        ) + tag_delta(e2, t) <= 1),
{
    assert(seq![e1, e2].drop_first() =~= seq![e2]);
    assert(seq![e1, e2][0] == e1);
    lemma_bal_one(e2, t, d + tag_delta(e1, t));
}

proof fn lemma_bal_three(e1: Ev, e2: Ev, e3: Ev, t: FormatType, d: int)
    ensures
        bal(seq![e1, e2, e3], t) == tag_delta(e1, t) + tag_delta(e2, t) + tag_delta(e3, t),
        nested_ok(seq![e1, e2, e3], t, d) == (0 <= d + tag_delta(e1, t) <= 1 && 0 <= d + tag_delta(
            e1,
            t,
        ) + tag_delta(e2, t) <= 1 && 0 <= d + tag_delta(e1, t) + tag_delta(e2, t) + tag_delta(
            e3,
            t,
        ) <= 1),
{
    assert(seq![e1, e2, e3].drop_first() =~= seq![e2, e3]);
    assert(seq![e1, e2, e3][0] == e1);
    lemma_bal_two(e2, e3, t, d + tag_delta(e1, t));
}

proof fn lemma_bal_four(e1: Ev, e2: Ev, e3: Ev, e4: Ev, t: FormatType, d: int)
    ensures
        bal(seq![e1, e2, e3, e4], t) == tag_delta(e1, t) + tag_delta(e2, t) + tag_delta(e3, t)
            + tag_delta(e4, t),
        nested_ok(seq![e1, e2, e3, e4], t, d) == (0 <= d + tag_delta(e1, t) <= 1 && 0 <= d
            + tag_delta(e1, t) + tag_delta(e2, t) <= 1 && 0 <= d + tag_delta(e1, t) + tag_delta(
            e2,
            t,
        ) + tag_delta(e3, t) <= 1 && 0 <= d + tag_delta(e1, t) + tag_delta(e2, t) + tag_delta(
            e3,
            t,
        ) + tag_delta(e4, t) <= 1),
{
    assert(seq![e1, e2, e3, e4].drop_first() =~= seq![e2, e3, e4]);
    assert(seq![e1, e2, e3, e4][0] == e1);
    lemma_bal_three(e2, e3, e4, t, d + tag_delta(e1, t));
}

proof fn lemma_bal_five(e1: Ev, e2: Ev, e3: Ev, e4: Ev, e5: Ev, t: FormatType, d: int)
    ensures
        bal(seq![e1, e2, e3, e4, e5], t) == tag_delta(e1, t) + tag_delta(e2, t) + tag_delta(e3, t)
            + tag_delta(e4, t) + tag_delta(e5, t),
        nested_ok(seq![e1, e2, e3, e4, e5], t, d) == (0 <= d + tag_delta(e1, t) <= 1 && 0 <= d
            + tag_delta(e1, t) + tag_delta(e2, t) <= 1 && 0 <= d + tag_delta(e1, t) + tag_delta(
            e2,
            t,
        ) + tag_delta(e3, t) <= 1 && 0 <= d + tag_delta(e1, t) + tag_delta(e2, t) + tag_delta(
            e3,
            t,
        ) + tag_delta(e4, t) <= 1 && 0 <= d + tag_delta(e1, t) + tag_delta(e2, t) + tag_delta(
            e3,
            t,
        ) + tag_delta(e4, t) + tag_delta(e5, t) <= 1),
{
    assert(seq![e1, e2, e3, e4, e5].drop_first() =~= seq![e2, e3, e4, e5]);
    assert(seq![e1, e2, e3, e4, e5][0] == e1);
    lemma_bal_four(e2, e3, e4, e5, t, d + tag_delta(e1, t));
}

#[verifier::rlimit(100)]
#[verifier::spinoff_prover]
proof fn lemma_inline_scan_bal(
    s: Seq<char>,
    i: int,
    st: InlineSt,
    esc: Option<char>,
    cc: bool,
    t: FormatType,
)
    requires
        is_inline_tag(t),
        0 <= st.link <= 4,
    ensures
        bal(inline_scan(s, i, st, esc, cc).0, t) == cnt_inline(inline_scan(s, i, st, esc, cc).1, t)
            - cnt_inline(st, t),
        nested_ok(inline_scan(s, i, st, esc, cc).0, t, cnt_inline(st, t)),
    decreases s.len() - i,
{
    if i < 0 || i >= s.len() {
        lemma_bal_zero(t, cnt_inline(st, t));
    } else {
        let c = s[i];
        let stp = inline_step(s, i, st, esc, cc);
        let d = cnt_inline(st, t);
        if st.lit {
            lemma_bal_one(Ev::Chars(ent(c)), t, d);
        } else if esc == Some(c) {
            lemma_bal_zero(t, d);
        } else if st.link == 1 {
            if c == '(' {
                lemma_bal_two(stp.0[0], stp.0[1], t, d);
                assert(stp.0 =~= seq![stp.0[0], stp.0[1]]);
            } else if c == '[' {
                lemma_bal_two(stp.0[0], stp.0[1], t, d);
                assert(stp.0 =~= seq![stp.0[0], stp.0[1]]);
            } else {
                lemma_bal_one(Ev::Chars(ent(c)), t, d);
            }
        } else if st.link == 2 {
            lemma_bal_one(stp.0[0], t, d);
            assert(stp.0 =~= seq![stp.0[0]]);
        } else if st.link == 3 {
            if c == '[' {
                lemma_bal_one(stp.0[0], t, d);
                assert(stp.0 =~= seq![stp.0[0]]);
            } else {
                lemma_bal_five(stp.0[0], stp.0[1], stp.0[2], stp.0[3], stp.0[4], t, d);
                assert(stp.0 =~= seq![stp.0[0], stp.0[1], stp.0[2], stp.0[3], stp.0[4]]);
            }
        } else if st.link == 4 {
            if c == ']' {
                lemma_bal_two(stp.0[0], stp.0[1], t, d);
                assert(stp.0 =~= seq![stp.0[0], stp.0[1]]);
            } else {
                lemma_bal_one(Ev::Chars(ent(c)), t, d);
            }
        } else {
            if c == '\\' {
                lemma_bal_zero(t, d);
            } else {
                lemma_bal_one(stp.0[0], t, d);
                assert(stp.0 =~= seq![stp.0[0]]);
            }
        }
        assert(bal(stp.0, t) == cnt_inline(stp.1, t) - d);
        assert(nested_ok(stp.0, t, d));
        lemma_inline_scan_bal(s, i + 1, stp.1, esc, cc, t);
        let rest = inline_scan(s, i + 1, stp.1, esc, cc);
        lemma_bal_append(stp.0, rest.0, t);
        lemma_nested_append(stp.0, rest.0, t, d);
    }
}

/// Every inline construct a line render opens is closed at most once, and
/// each close comes only after its matching open: over the line's event
/// stream, the running open/close balance of every inline tag stays within
/// `{0, 1}`. For well-formed constructs — markers that leave the span
/// toggled off and the link machine idle at end of line — the balance ends
/// at zero, so every open is closed exactly once, after its open.
pub proof fn lemma_inline_tags_well_nested(
    s: Seq<char>,
    esc: Option<char>,
    cc: bool,
    t: FormatType,
)
    requires
        is_inline_tag(t),
    ensures
        nested_ok(inline_events(s, esc, cc), t, 0),
        bal(inline_events(s, esc, cc), t) == cnt_inline(inline_final(s, esc, cc), t),
{
    lemma_inline_scan_bal(s, 0, inline_init(), esc, cc, t);
}

/// How many opens of the block-level tag `t` the block state `st` holds
/// unclosed.
pub open spec fn cnt_block(st: BlockState, t: FormatType) -> int {
    match t {
        FormatType::Paragraph => if st == BlockState::Paragraph {
            1int
        } else {
            0int
        },
        FormatType::List(k) => if st == BlockState::List(k) {
            1int
        } else {
            0int
        },
        FormatType::ListItem(k) => if st == BlockState::List(k) {
            1int
        } else {
            0int
        },
        FormatType::CodeBlock => if st == BlockState::Codeblock {
            1int
        } else {
            0int
        },
        FormatType::CodeBlockContents => if st == BlockState::Codeblock {
            1int
        } else {
            0int
        },
        _ => 0int,
    }
}

proof fn lemma_all_zero_delta(evs: Seq<Ev>, t: FormatType, d: int)
    requires
        0 <= d <= 1,
        forall|j: int| 0 <= j < evs.len() ==> tag_delta(#[trigger] evs[j], t) == 0,
    ensures
        bal(evs, t) == 0,
        nested_ok(evs, t, d),
    decreases evs.len(),
{
    if evs.len() > 0 {
        assert(tag_delta(evs[0], t) == 0);
        assert(forall|j: int|
            0 <= j < evs.drop_first().len() ==> tag_delta(#[trigger] evs.drop_first()[j], t) == 0);
        lemma_all_zero_delta(evs.drop_first(), t, d);
    }
}

#[verifier::rlimit(100)]
#[verifier::spinoff_prover]
proof fn lemma_inline_evs_no_block(
    s: Seq<char>,
    i: int,
    st: InlineSt,
    esc: Option<char>,
    cc: bool,
    t: FormatType,
)
    requires
        !is_inline_tag(t),
    ensures
        forall|j: int|
            0 <= j < inline_scan(s, i, st, esc, cc).0.len() ==> tag_delta(
                #[trigger] inline_scan(s, i, st, esc, cc).0[j],
                t,
            ) == 0,
    decreases s.len() - i,
{
    if !(i < 0 || i >= s.len()) {
        let stp = inline_step(s, i, st, esc, cc);
        let rest = inline_scan(s, i + 1, stp.1, esc, cc);
        lemma_inline_evs_no_block(s, i + 1, stp.1, esc, cc, t);
        assert(forall|j: int| 0 <= j < stp.0.len() ==> tag_delta(#[trigger] stp.0[j], t) == 0);
        assert(inline_scan(s, i, st, esc, cc).0 == stp.0 + rest.0);
        assert forall|j: int|
            0 <= j < (stp.0 + rest.0).len() implies tag_delta(
            #[trigger] (stp.0 + rest.0)[j],
            t,
        ) == 0 by {
            if j < stp.0.len() {
                assert((stp.0 + rest.0)[j] == stp.0[j]);
            } else {
                assert((stp.0 + rest.0)[j] == rest.0[j - stp.0.len()]);
            }
        };
    }
}

proof fn lemma_inline_block_free(
    s: Seq<char>,
    esc: Option<char>,
    cc: bool,
    t: FormatType,
    d: int,
)
    requires
        !is_inline_tag(t),
        0 <= d <= 1,
    ensures
        bal(inline_events(s, esc, cc), t) == 0,
        nested_ok(inline_events(s, esc, cc), t, d),
{
    lemma_inline_evs_no_block(s, 0, inline_init(), esc, cc, t);
    lemma_all_zero_delta(inline_events(s, esc, cc), t, d);
}

#[verifier::rlimit(100)]
#[verifier::spinoff_prover]
proof fn lemma_card_bal(name: Seq<char>, date: Seq<char>, cat: Seq<char>, t: FormatType)
    ensures
        bal(card_evs(name, date, cat), t) == 0,
        nested_ok(card_evs(name, date, cat), t, 0),
{
    let p1 = seq![Ev::Open(FormatType::CardAuthor), Ev::Open(FormatType::CardAuthorAvatar)];
    let p2 = seq![
        Ev::Chars(seq!['/'] + ascii_only(name) + seq!['.', 'j', 'p', 'g']),
        Ev::Close(FormatType::CardAuthorAvatar),
    ];
    let p3 = seq![Ev::Open(FormatType::CardAuthorName), Ev::Chars(name)];
    let p4 = seq![Ev::Close(FormatType::CardAuthorName), Ev::Open(FormatType::CardAuthorDate)];
    let p5 = seq![Ev::Chars(date), Ev::Close(FormatType::CardAuthorDate)];
    let p6 = seq![Ev::Open(FormatType::CardAuthorCategory), Ev::Chars(cat)];
    let p7 = seq![Ev::Close(FormatType::CardAuthorCategory), Ev::Close(FormatType::CardAuthor)];
    assert(card_evs(name, date, cat) =~= p1 + p2 + p3 + p4 + p5 + p6 + p7);
    lemma_bal_two(p1[0], p1[1], t, 0);
    assert(p1 =~= seq![p1[0], p1[1]]);
    lemma_bal_two(p2[0], p2[1], t, bal(p1, t));
    assert(p2 =~= seq![p2[0], p2[1]]);
    lemma_bal_append(p1, p2, t);
    lemma_nested_append(p1, p2, t, 0);
    lemma_bal_two(p3[0], p3[1], t, bal(p1 + p2, t));
    assert(p3 =~= seq![p3[0], p3[1]]);
    lemma_bal_append(p1 + p2, p3, t);
    lemma_nested_append(p1 + p2, p3, t, 0);
    lemma_bal_two(p4[0], p4[1], t, bal(p1 + p2 + p3, t));
    assert(p4 =~= seq![p4[0], p4[1]]);
    lemma_bal_append(p1 + p2 + p3, p4, t);
    lemma_nested_append(p1 + p2 + p3, p4, t, 0);
    lemma_bal_two(p5[0], p5[1], t, bal(p1 + p2 + p3 + p4, t));
    assert(p5 =~= seq![p5[0], p5[1]]);
    lemma_bal_append(p1 + p2 + p3 + p4, p5, t);
    lemma_nested_append(p1 + p2 + p3 + p4, p5, t, 0);
    lemma_bal_two(p6[0], p6[1], t, bal(p1 + p2 + p3 + p4 + p5, t));
    assert(p6 =~= seq![p6[0], p6[1]]);
    lemma_bal_append(p1 + p2 + p3 + p4 + p5, p6, t);
    lemma_nested_append(p1 + p2 + p3 + p4 + p5, p6, t, 0);
    lemma_bal_two(p7[0], p7[1], t, bal(p1 + p2 + p3 + p4 + p5 + p6, t));
    assert(p7 =~= seq![p7[0], p7[1]]);
    lemma_bal_append(p1 + p2 + p3 + p4 + p5 + p6, p7, t);
    lemma_nested_append(p1 + p2 + p3 + p4 + p5 + p6, p7, t, 0);
}

#[verifier::rlimit(100)]
#[verifier::spinoff_prover]
proof fn lemma_doc_evs_bal(
    ls: Seq<Seq<char>>,
    st: BlockState,
    esc_n: Option<char>,
    esc_c: Option<char>,
    t: FormatType,
)
    requires
        !is_inline_tag(t),
    ensures
        bal(doc_evs(ls, st, esc_n, esc_c), t) == 0 - cnt_block(st, t),
        nested_ok(doc_evs(ls, st, esc_n, esc_c), t, cnt_block(st, t)),
    decreases ls.len(),
{
    let d = cnt_block(st, t);
    if ls.len() == 0 {
        match st {
            BlockState::Empty => {
                lemma_bal_zero(t, d);
            },
            BlockState::Paragraph => {
                lemma_bal_one(Ev::Close(FormatType::Paragraph), t, d);
            },
            BlockState::Codeblock => {
                lemma_bal_two(
                    Ev::Close(FormatType::CodeBlockContents),
                    Ev::Close(FormatType::CodeBlock),
                    t,
                    d,
                );
            },
            BlockState::List(k) => {
                lemma_bal_two(
                    Ev::Close(FormatType::ListItem(k)),
                    Ev::Close(FormatType::List(k)),
                    t,
                    d,
                );
            },
        }
    } else {
        let raw = ls[0];
        let tr = trim_of(raw);
        let le = line_evs(raw, st, esc_n, esc_c);
        if st == BlockState::Codeblock {
            if tr == seq!['`', '`', '`'] {
                lemma_bal_two(
                    Ev::Close(FormatType::CodeBlockContents),
                    Ev::Close(FormatType::CodeBlock),
                    t,
                    d,
                );
            } else {
                lemma_inline_block_free(raw, esc_c, true, t, d);
                lemma_bal_one(nl_ev(), t, d);
                lemma_bal_append(inline_events(raw, esc_c, true), seq![nl_ev()], t);
                lemma_nested_append(inline_events(raw, esc_c, true), seq![nl_ev()], t, d);
            }
        } else if tr.len() == 0 {
            match st {
                BlockState::Empty => {
                    lemma_bal_zero(t, d);
                },
                BlockState::Paragraph => {
                    lemma_bal_one(Ev::Close(FormatType::Paragraph), t, d);
                },
                BlockState::Codeblock => {
                    lemma_bal_two(
                        Ev::Close(FormatType::CodeBlockContents),
                        Ev::Close(FormatType::CodeBlock),
                        t,
                        d,
                    );
                },
                BlockState::List(k) => {
                    lemma_bal_two(
                        Ev::Close(FormatType::ListItem(k)),
                        Ev::Close(FormatType::List(k)),
                        t,
                        d,
                    );
                },
            }
        } else if st == BlockState::Empty {
            if is_comment_line(tr) {
                lemma_bal_zero(t, d);
            } else if is_card_line(tr) {
                match card_fields_of(tr) {
                    Some(f) => {
                        lemma_card_bal(f.0, f.1, f.2, t);
                    },
                    None => {
                        lemma_bal_zero(t, d);
                    },
                }
            } else if tr[0] == '#' {
                let cnt = hash_run(tr, 0);
                let lvl: u8 = if cnt >= 6 {
                    6u8
                } else {
                    cnt as u8
                };
                let a = seq![Ev::Open(FormatType::Heading(lvl))];
                let b = inline_events(after_marker(tr, cnt), esc_n, false);
                let cl = seq![Ev::Close(FormatType::Heading(lvl))];
                let da = tag_delta(Ev::Open(FormatType::Heading(lvl)), t);
                lemma_bal_one(Ev::Open(FormatType::Heading(lvl)), t, 0);
                lemma_inline_block_free(after_marker(tr, cnt), esc_n, false, t, da);
                lemma_bal_append(a, b, t);
                lemma_nested_append(a, b, t, 0);
                lemma_bal_one(Ev::Close(FormatType::Heading(lvl)), t, da);
                lemma_bal_append(a + b, cl, t);
                lemma_nested_append(a + b, cl, t, 0);
            } else if tr[0] == '-' || tr[0] == '@' {
                let k = if tr[0] == '-' {
                    ListType::Unordered
                } else {
                    ListType::Ordered
                };
                let a = seq![Ev::Open(FormatType::List(k)), Ev::Open(FormatType::ListItem(k))];
                let b = inline_events(after_marker(tr, 1), esc_n, false);
                lemma_bal_two(a[0], a[1], t, 0);
                assert(a =~= seq![a[0], a[1]]);
                lemma_inline_block_free(after_marker(tr, 1), esc_n, false, t, bal(a, t));
                lemma_bal_append(a, b, t);
                lemma_nested_append(a, b, t, 0);
                lemma_bal_one(nl_ev(), t, bal(a, t));
                lemma_bal_append(a + b, seq![nl_ev()], t);
                lemma_nested_append(a + b, seq![nl_ev()], t, 0);
            } else if is_fence_line(tr) {
                let a = seq![
                    Ev::Open(FormatType::CodeBlock),
                    Ev::Open(FormatType::CodeBlockMeta),
                ];
                let b = inline_events(after_marker(tr, 3), esc_n, false);
                let cl = seq![
                    Ev::Close(FormatType::CodeBlockMeta),
                    Ev::Open(FormatType::CodeBlockContents),
                ];
                lemma_bal_two(a[0], a[1], t, 0);
                assert(a =~= seq![a[0], a[1]]);
                lemma_inline_block_free(after_marker(tr, 3), esc_n, false, t, bal(a, t));
                lemma_bal_append(a, b, t);
                lemma_nested_append(a, b, t, 0);
                lemma_bal_two(cl[0], cl[1], t, bal(a, t));
                assert(cl =~= seq![cl[0], cl[1]]);
                lemma_bal_append(a + b, cl, t);
                lemma_nested_append(a + b, cl, t, 0);
            } else {
                let a = seq![Ev::Open(FormatType::Paragraph)];
                let b = inline_events(tr, esc_n, false);
                let da = tag_delta(Ev::Open(FormatType::Paragraph), t);
                lemma_bal_one(Ev::Open(FormatType::Paragraph), t, 0);
                lemma_inline_block_free(tr, esc_n, false, t, da);
                lemma_bal_append(a, b, t);
                lemma_nested_append(a, b, t, 0);
                lemma_bal_one(nl_ev(), t, da);
                lemma_bal_append(a + b, seq![nl_ev()], t);
                lemma_nested_append(a + b, seq![nl_ev()], t, 0);
            }
        } else if (st == BlockState::List(ListType::Unordered) && tr[0] == '-') || (st
            == BlockState::List(ListType::Ordered) && tr[0] == '@') {
            let k = if tr[0] == '-' {
                ListType::Unordered
            } else {
                ListType::Ordered
            };
            let a = seq![Ev::Close(FormatType::ListItem(k)), Ev::Open(FormatType::ListItem(k))];
            let b = inline_events(after_marker(tr, 1), esc_n, false);
            lemma_bal_two(a[0], a[1], t, d);
            assert(a =~= seq![a[0], a[1]]);
            lemma_inline_block_free(after_marker(tr, 1), esc_n, false, t, d + bal(a, t));
            lemma_bal_append(a, b, t);
            lemma_nested_append(a, b, t, d);
            lemma_bal_one(nl_ev(), t, d + bal(a, t));
            lemma_bal_append(a + b, seq![nl_ev()], t);
            lemma_nested_append(a + b, seq![nl_ev()], t, d);
        } else {
            let b = inline_events(tr, esc_n, false);
            lemma_inline_block_free(tr, esc_n, false, t, d);
            lemma_bal_one(nl_ev(), t, d);
            lemma_bal_append(b, seq![nl_ev()], t);
            lemma_nested_append(b, seq![nl_ev()], t, d);
        }
        assert(bal(le.0, t) == cnt_block(le.1, t) - d);
        assert(nested_ok(le.0, t, d));
        lemma_doc_evs_bal(ls.drop_first(), le.1, esc_n, esc_c, t);
        lemma_bal_append(le.0, doc_evs(ls.drop_first(), le.1, esc_n, esc_c), t);
        lemma_nested_append(le.0, doc_evs(ls.drop_first(), le.1, esc_n, esc_c), t, d);
    }
}

/// Every block-level construct a document render opens is closed exactly
/// once, and only after its matching open: over the whole document's event
/// stream, the running open/close balance of every block-level tag stays
/// within `{0, 1}` and ends at zero — the end of input closes any block
/// that is still open.
pub proof fn lemma_document_tags_well_nested(
    s: Seq<char>,
    esc_n: Option<char>,
    esc_c: Option<char>,
    t: FormatType,
)
    requires
        !is_inline_tag(t),
    ensures
        nested_ok(doc_events(s, esc_n, esc_c), t, 0),
        bal(doc_events(s, esc_n, esc_c), t) == 0,
{
    lemma_doc_evs_bal(lines_of(s), BlockState::Empty, esc_n, esc_c, t);
}

/// A second consecutive blank line contributes nothing: rendering the
/// lines `[b1, b2] + ls` from any state outside a code block emits exactly
/// the events of rendering `[b1] + ls`, since the first blank line already
/// closed the open block and a blank line in the empty state is a no-op.
pub proof fn lemma_blank_line_idempotent(
    b1: Seq<char>,
    b2: Seq<char>,
    ls: Seq<Seq<char>>,
    st: BlockState,
    esc_n: Option<char>,
    esc_c: Option<char>,
)
    requires
        trim_of(b1).len() == 0,
        trim_of(b2).len() == 0,
        st != BlockState::Codeblock,
    ensures
        doc_evs(seq![b1, b2] + ls, st, esc_n, esc_c) == doc_evs(seq![b1] + ls, st, esc_n, esc_c),
{
    let l2 = seq![b2] + ls;
    assert((seq![b1, b2] + ls).drop_first() =~= l2);
    assert((seq![b1] + ls).drop_first() =~= ls);
    assert((seq![b1, b2] + ls)[0] == b1);
    assert((seq![b1] + ls)[0] == b1);
    assert(l2[0] == b2);
    assert(l2.drop_first() =~= ls);
    assert(line_evs(b1, st, esc_n, esc_c) == (close_evs(st), BlockState::Empty));
    assert(line_evs(b2, BlockState::Empty, esc_n, esc_c).0 =~= Seq::<Ev>::empty());
    assert(doc_evs(l2, BlockState::Empty, esc_n, esc_c) =~= doc_evs(
        ls,
        BlockState::Empty,
        esc_n,
        esc_c,
    ));
    assert(doc_evs(seq![b1, b2] + ls, st, esc_n, esc_c) =~= doc_evs(
        seq![b1] + ls,
        st,
        esc_n,
        esc_c,
    ));
}

/// A run of `k` heading markers.
pub open spec fn hashes(k: nat) -> Seq<char> {
    Seq::new(k, |m: int| '#')
}

proof fn lemma_ws_back_shift(h: Seq<char>, u: Seq<char>, i: int)
    requires
        h.len() >= 1,
        !is_ws(h[h.len() - 1]),
        0 <= i <= u.len(),
    ensures
        ws_back_to(h + u, h.len() + i, 0) == h.len() + ws_back_to(u, i, 0),
    decreases i,
{
    let s = h + u;
    if i > 0 {
        assert(s[h.len() + i - 1] == u[i - 1]);
        if is_ws(u[i - 1]) {
            lemma_ws_back_shift(h, u, i - 1);
        }
    } else {
        assert(s[h.len() - 1] == h[h.len() - 1]);
    }
}

proof fn lemma_ws_run_shift(h: Seq<char>, w: Seq<char>, j: int)
    requires
        forall|m: int| 0 <= m < h.len() ==> h[m] == '#',
        0 <= j <= w.len(),
    ensures
        ws_run_to(h + w, h.len() + j, h.len() + w.len() as int) == h.len() + ws_run_to(
            w,
            j,
            w.len() as int,
        ),
    decreases w.len() - j,
{
    let s = h + w;
    if j < w.len() {
        assert(s[h.len() + j] == w[j]);
        if is_ws(w[j]) {
            lemma_ws_run_shift(h, w, j + 1);
        }
    }
}

proof fn lemma_hash_run_shift(h: Seq<char>, w: Seq<char>, j: int)
    requires
        forall|m: int| 0 <= m < h.len() ==> h[m] == '#',
        w.len() > 0 ==> w[0] != '#',
        0 <= j <= h.len(),
    ensures
        hash_run(h + w, j) == h.len(),
    decreases h.len() - j,
{
    let s = h + w;
    if j < h.len() {
        assert(s[j] == h[j]);
        lemma_hash_run_shift(h, w, j + 1);
    } else {
        if w.len() > 0 {
            assert(s[j] == w[0]);
        }
    }
}

/// Seven leading heading markers render exactly as six do: the heading
/// level is clamped at six, and the heading content — what follows the
/// marker run — is the same, so the emitted events coincide.
pub proof fn lemma_heading_level_clamp(u: Seq<char>, esc_n: Option<char>, esc_c: Option<char>)
    requires
        u.len() > 0 ==> u[0] != '#',
    ensures
        line_evs(hashes(7) + u, BlockState::Empty, esc_n, esc_c) == line_evs(
            hashes(6) + u,
            BlockState::Empty,
            esc_n,
            esc_c,
        ),
{
    let h7 = hashes(7);
    let h6 = hashes(6);
    assert(h7.len() == 7);
    assert(h6.len() == 6);
    let raw7 = h7 + u;
    let raw6 = h6 + u;
    assert(!is_ws('#'));
    assert(raw7[0] == '#');
    assert(raw6[0] == '#');
    assert(ws_run_to(raw7, 0, raw7.len() as int) == 0);
    assert(ws_run_to(raw6, 0, raw6.len() as int) == 0);
    lemma_ws_back_shift(h7, u, u.len() as int);
    lemma_ws_back_shift(h6, u, u.len() as int);
    let e = ws_back_to(u, u.len() as int, 0);
    lemma_ws_back_to_bounds(u, u.len() as int, 0);
    let up = u.subrange(0, e);
    let t7 = h7 + up;
    let t6 = h6 + up;
    assert(trim_of(raw7) =~= t7);
    assert(trim_of(raw6) =~= t6);
    assert(t7[0] == '#');
    assert(t6[0] == '#');
    assert(up.len() > 0 ==> up[0] == u[0]);
    lemma_hash_run_shift(h7, up, 0);
    lemma_hash_run_shift(h6, up, 0);
    assert(hash_run(t7, 0) == 7);
    assert(hash_run(t6, 0) == 6);
    lemma_ws_run_shift(h7, up, 0);
    lemma_ws_run_shift(h6, up, 0);
    let m = ws_run_to(up, 0, up.len() as int);
    lemma_ws_run_to_bounds(up, 0, up.len() as int);
    assert(after_marker(t7, 7) =~= up.subrange(m, up.len() as int));
    assert(after_marker(t6, 6) =~= up.subrange(m, up.len() as int));
    assert(line_evs(raw7, BlockState::Empty, esc_n, esc_c).0 == line_evs(
        raw6,
        BlockState::Empty,
        esc_n,
        esc_c,
    ).0);
    assert(line_evs(raw7, BlockState::Empty, esc_n, esc_c).1 == line_evs(
        raw6,
        BlockState::Empty,
        esc_n,
        esc_c,
    ).1);
}

} // verus!
