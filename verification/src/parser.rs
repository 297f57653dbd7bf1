use vstd::prelude::*;
use vstd::pervasive::VecAdditionalExecFns;

use crate::ast::{attrs_view, opt_view, tags_view, vtags_view, Tag, TagV};
use crate::errors::{tokens_view, Error, ErrorV, ParserError, ParserErrorV, Span};
use crate::lexer::{full_lex, lex_all, slice_of, spanned_view, Token, TokenV};

verus! {

// ---------------------------------------------------------------------------
// The grammar as a function of the structural token stream.
//
// Every spec function here returns the parse result together with the stream
// position after it; an executable counterpart below is proved to return
// exactly the modelled result and to leave the stream at the modelled
// position.
// ---------------------------------------------------------------------------

/// The span of the exhaustion point, one past the source.
pub open spec fn eof_span(src: Seq<char>) -> Span {
    Span { start: src.len() as usize, end: src.len() as usize }
}

/// The expected-set reported when a text token was required: a representative
/// `Text` token with an empty slice.
pub open spec fn expect_text() -> Seq<TokenV> {
    seq![TokenV::Text(Seq::<char>::empty())]
}

/// The expected-set reported when a quote token was required.
pub open spec fn expect_quote() -> Seq<TokenV> {
    seq![TokenV::Quote(Seq::<char>::empty())]
}

/// Clamp a helper's returned position into `[lo, len]`; the helpers never
/// actually leave that interval, so this is the identity wherever it is used,
/// but it lets the recursion below stand on its own.
pub open spec fn step_up(len: nat, lo: nat, p: nat) -> nat {
    if p <= lo {
        lo
    } else if p > len {
        len
    } else {
        p
    }
}

/// The source text from the start of the token at `start` to the end of the
/// token at `cur - 1`: the concatenated slices of the tokens in
/// `[start, cur)`, read off the source buffer.
pub open spec fn span_text(src: Seq<char>, toks: Seq<(TokenV, Span)>, start: nat, cur: nat) -> Seq<
    char,
> {
    if start < cur && cur <= toks.len() {
        slice_of(
            src,
            Span { start: toks[start as int].1.start, end: toks[cur as int - 1].1.end },
        )
    } else {
        Seq::empty()
    }
}

/// Scan for the quote token carrying the same quote character `qc` that
/// opened the value; every other token, whatever it is, belongs to the value.
/// The value is the raw source text between the quotes.
pub open spec fn scan_string_spec(
    src: Seq<char>,
    toks: Seq<(TokenV, Span)>,
    qc: Seq<char>,
    start: nat,
    cur: nat,
) -> (Result<Seq<char>, ParserErrorV>, nat)
    decreases toks.len() - cur,
{
    if cur >= toks.len() {
        (Err(ParserErrorV::UnexpectedEOF { expected: None, span: eof_span(src) }), cur)
    } else {
        match toks[cur as int].0 {
            TokenV::Quote(s) => if s == qc {
                (Ok(span_text(src, toks, start, cur)), cur + 1)
            } else {
                scan_string_spec(src, toks, qc, start, cur + 1)
            },
            _ => scan_string_spec(src, toks, qc, start, cur + 1),
        }
    }
}

/// Law: a quoted value that no matching quote ever closes fails with
/// `UnexpectedEOF` at the exhaustion point — never with a partial value.
pub proof fn lemma_unclosed_quote(
    src: Seq<char>,
    toks: Seq<(TokenV, Span)>,
    qc: Seq<char>,
    start: nat,
    cur: nat,
)
    requires
        cur <= toks.len(),
        forall|k: int|
            cur <= k < toks.len() ==> !(toks[k].0 is Quote && toks[k].0->Quote_0 == qc),
    ensures
        scan_string_spec(src, toks, qc, start, cur) == (
            Err::<Seq<char>, ParserErrorV>(
                ParserErrorV::UnexpectedEOF { expected: None, span: eof_span(src) },
            ),
            toks.len() as nat,
        ),
    decreases toks.len() - cur,
{
    if cur < toks.len() {
        lemma_unclosed_quote(src, toks, qc, start, cur + 1);
    }
}

/// A quoted value: an opening quote, then raw tokens until a quote carrying
/// the same quote character. No escaping, no nesting; only a matching quote
/// character terminates the value.
pub open spec fn parse_string_spec(src: Seq<char>, toks: Seq<(TokenV, Span)>, pos: nat) -> (
    Result<Seq<char>, ParserErrorV>,
    nat,
) {
    if pos >= toks.len() {
        (
            Err(
                ParserErrorV::UnexpectedEOF { expected: Some(expect_quote()), span: eof_span(src) },
            ),
            pos,
        )
    } else {
        match toks[pos as int].0 {
            TokenV::Quote(qc) => scan_string_spec(src, toks, qc, pos + 1, pos + 1),
            _ => (
                Err(
                    ParserErrorV::ExpectedToken {
                        expected: expect_quote(),
                        found: toks[pos as int].0,
                        span: toks[pos as int].1,
                    },
                ),
                pos,
            ),
        }
    }
}

/// First index of `k` among the attribute keys, or -1.
pub open spec fn find_key(attrs: Seq<(Seq<char>, Option<Seq<char>>)>, k: Seq<char>) -> int
    decreases attrs.len(),
{
    if attrs.len() == 0 {
        -1
    } else if attrs[0].0 == k {
        0
    } else {
        let r = find_key(attrs.skip(1), k);
        if r < 0 {
            -1
        } else {
            r + 1
        }
    }
}

pub proof fn lemma_find_key(attrs: Seq<(Seq<char>, Option<Seq<char>>)>, k: Seq<char>)
    ensures
        -1 <= find_key(attrs, k) < attrs.len(),
        find_key(attrs, k) >= 0 ==> attrs[find_key(attrs, k)].0 == k,
        find_key(attrs, k) >= 0 ==> forall|j: int|
            0 <= j < find_key(attrs, k) ==> attrs[j].0 != k,
        find_key(attrs, k) == -1 ==> forall|j: int| 0 <= j < attrs.len() ==> attrs[j].0 != k,
    decreases attrs.len(),
{
    if attrs.len() > 0 && attrs[0].0 != k {
        let s = attrs.skip(1);
        lemma_find_key(s, k);
        assert(forall|j: int| 0 <= j < attrs.len() - 1 ==> s[j] == attrs[j + 1]);
        let r = find_key(s, k);
        if r >= 0 {
            assert forall|j: int| 0 <= j < find_key(attrs, k) implies attrs[j].0 != k by {
                if j > 0 {
                    assert(s[j - 1].0 != k);
                }
            }
        } else {
            assert forall|j: int| 0 <= j < attrs.len() implies attrs[j].0 != k by {
                if j > 0 {
                    assert(s[j - 1].0 != k);
                }
            }
        }
    }
}

/// Record an attribute: a later occurrence of a key overwrites the earlier
/// value in place (last write wins, first position kept), a new key is
/// appended.
pub open spec fn upsert(
    attrs: Seq<(Seq<char>, Option<Seq<char>>)>,
    k: Seq<char>,
    v: Option<Seq<char>>,
) -> Seq<(Seq<char>, Option<Seq<char>>)> {
    let i = find_key(attrs, k);
    if i >= 0 {
        attrs.update(i, (k, v))
    } else {
        attrs.push((k, v))
    }
}

/// The attribute list: `key`, optionally `= quoted`, separated by an optional
/// comma and an optional blank, until the closing parenthesis.
pub open spec fn parse_attributes_spec(
    src: Seq<char>,
    toks: Seq<(TokenV, Span)>,
    pos: nat,
    acc: Seq<(Seq<char>, Option<Seq<char>>)>,
) -> (Result<Seq<(Seq<char>, Option<Seq<char>>)>, ParserErrorV>, nat)
    decreases toks.len() - pos,
{
    let len = toks.len();
    if pos >= len {
        (Err(ParserErrorV::UnexpectedEOF { expected: None, span: eof_span(src) }), pos)
    } else if toks[pos as int].0 is CloseParen {
        (Ok(acc), pos + 1)
    } else {
        match toks[pos as int].0 {
            TokenV::Text(name) => {
                let after = if pos + 1 < len && toks[pos as int + 1].0 is Equals {
                    let (vr, p2) = parse_string_spec(src, toks, pos + 2);
                    match vr {
                        Ok(v) => (Ok(upsert(acc, name, Some(v))), step_up(len, pos + 2, p2)),
                        Err(e) => (Err(e), p2),
                    }
                } else {
                    (Ok(upsert(acc, name, None)), pos + 1)
                };
                match after.0 {
                    Err(e) => (Err(e), after.1),
                    Ok(acc2) => {
                        let q0 = after.1;
                        if q0 >= len {
                            (
                                Err(
                                    ParserErrorV::UnexpectedEOF {
                                        expected: None,
                                        span: eof_span(src),
                                    },
                                ),
                                q0,
                            )
                        } else {
                            let q1: nat = if toks[q0 as int].0 is Comma {
                                q0 + 1
                            } else {
                                q0
                            };
                            if q1 >= len {
                                (
                                    Err(
                                        ParserErrorV::UnexpectedEOF {
                                            expected: None,
                                            span: eof_span(src),
                                        },
                                    ),
                                    q1,
                                )
                            } else {
                                let q2: nat = if toks[q1 as int].0 is WhiteSpace {
                                    q1 + 1
                                } else {
                                    q1
                                };
                                parse_attributes_spec(src, toks, q2, acc2)
                            }
                        }
                    },
                }
            },
            _ => (
                Err(
                    ParserErrorV::ExpectedToken {
                        expected: expect_text(),
                        found: toks[pos as int].0,
                        span: toks[pos as int].1,
                    },
                ),
                pos,
            ),
        }
    }
}

/// The class list: `Dot Text`, repeated. Anything that is not a `Dot` ends
/// the list, end of input included; only a `Dot` without its following text
/// token is an error.
pub open spec fn parse_classes_spec(
    src: Seq<char>,
    toks: Seq<(TokenV, Span)>,
    pos: nat,
    acc: Seq<Seq<char>>,
) -> (Result<Seq<Seq<char>>, ParserErrorV>, nat)
    decreases toks.len() - pos,
{
    let len = toks.len();
    if pos >= len {
        (Ok(acc), pos)
    } else if toks[pos as int].0 is Dot {
        if pos + 1 >= len {
            (
                Err(
                    ParserErrorV::UnexpectedEOF {
                        expected: Some(expect_text()),
                        span: eof_span(src),
                    },
                ),
                pos + 1,
            )
        } else {
            match toks[pos as int + 1].0 {
                TokenV::Text(t) => parse_classes_spec(src, toks, pos + 2, acc.push(t)),
                _ => (
                    Err(
                        ParserErrorV::ExpectedToken {
                            expected: expect_text(),
                            found: toks[pos as int + 1].0,
                            span: toks[pos as int + 1].1,
                        },
                    ),
                    pos + 1,
                ),
            }
        }
    } else {
        (Ok(acc), pos)
    }
}

/// The trailing content of a line: the raw source text of every token up to,
/// but not including, the next `Newline`.
pub open spec fn parse_content_spec(
    src: Seq<char>,
    toks: Seq<(TokenV, Span)>,
    start: nat,
    cur: nat,
) -> (Result<Seq<char>, ParserErrorV>, nat)
    decreases toks.len() - cur,
{
    if cur >= toks.len() {
        (Err(ParserErrorV::UnexpectedEOF { expected: None, span: eof_span(src) }), cur)
    } else if toks[cur as int].0 is Newline {
        (Ok(span_text(src, toks, start, cur)), cur)
    } else {
        parse_content_spec(src, toks, start, cur + 1)
    }
}

/// One element: `[name][#id][.class]*[(attrs)][ content][children]`. The
/// children decision runs on one token of lookahead: a `Newline` is
/// tentatively consumed; an `Indent` after it opens a child list (whose
/// closing `Dedent` the list consumes), a `Dedent` after it closes this
/// element (the `Dedent` stays for the enclosing list), anything else rewinds
/// the `Newline` (it was a sibling separator).
/// The element's name: a leading text token, or `div` when there is none.
pub open spec fn name_stage(toks: Seq<(TokenV, Span)>, pos: nat) -> (Seq<char>, nat) {
    if pos < toks.len() {
        match toks[pos as int].0 {
            TokenV::Text(t) => (t, pos + 1),
            _ => ("div"@, pos),
        }
    } else {
        ("div"@, pos)
    }
}

/// The element's id: `#` followed by a text token, at most once.
pub open spec fn id_stage(src: Seq<char>, toks: Seq<(TokenV, Span)>, pos: nat) -> (
    Result<Option<Seq<char>>, ParserErrorV>,
    nat,
) {
    let len = toks.len();
    if pos < len && toks[pos as int].0 is Hash {
        if pos + 1 >= len {
            (
                Err(
                    ParserErrorV::UnexpectedEOF {
                        expected: Some(expect_text()),
                        span: eof_span(src),
                    },
                ),
                pos + 1,
            )
        } else {
            match toks[pos as int + 1].0 {
                TokenV::Text(t) => (Ok(Some(t)), pos + 2),
                _ => (
                    Err(
                        ParserErrorV::ExpectedToken {
                            expected: expect_text(),
                            found: toks[pos as int + 1].0,
                            span: toks[pos as int + 1].1,
                        },
                    ),
                    pos + 1,
                ),
            }
        }
    } else {
        (Ok(None), pos)
    }
}

/// The element's classes: present only where a `.` follows the header so far.
pub open spec fn classes_stage(src: Seq<char>, toks: Seq<(TokenV, Span)>, pos: nat) -> (
    Result<Seq<Seq<char>>, ParserErrorV>,
    nat,
) {
    if pos < toks.len() && toks[pos as int].0 is Dot {
        parse_classes_spec(src, toks, pos, Seq::empty())
    } else {
        (Ok(Seq::empty()), pos)
    }
}

/// The element's attributes: present only inside parentheses.
pub open spec fn attrs_stage(src: Seq<char>, toks: Seq<(TokenV, Span)>, pos: nat) -> (
    Result<Seq<(Seq<char>, Option<Seq<char>>)>, ParserErrorV>,
    nat,
) {
    if pos < toks.len() && toks[pos as int].0 is OpenParen {
        parse_attributes_spec(src, toks, pos + 1, Seq::empty())
    } else {
        (Ok(Seq::empty()), pos)
    }
}

/// The element's trailing content: present only after a blank.
pub open spec fn content_stage(src: Seq<char>, toks: Seq<(TokenV, Span)>, pos: nat) -> (
    Result<Option<Seq<char>>, ParserErrorV>,
    nat,
) {
    if pos < toks.len() && toks[pos as int].0 is WhiteSpace {
        let c = parse_content_spec(src, toks, pos + 1, pos + 1);
        match c.0 {
            Ok(text) => (Ok(Some(text)), c.1),
            Err(e) => (Err(e), c.1),
        }
    } else {
        (Ok(None), pos)
    }
}

pub open spec fn tag_spec(src: Seq<char>, toks: Seq<(TokenV, Span)>, pos: nat) -> (
    Result<TagV, ParserErrorV>,
    nat,
)
    decreases toks.len() - pos, 0nat,
{
    let len = toks.len();
    if pos >= len {
        (Err(ParserErrorV::UnexpectedEOF { expected: None, span: eof_span(src) }), pos)
    } else {
        let stage1 = name_stage(toks, pos);
        let name = stage1.0;
        let p1 = stage1.1;
        let stage2 = id_stage(src, toks, p1);
        match stage2.0 {
            Err(e) => (Err(e), stage2.1),
            Ok(id) => {
                let p2 = stage2.1;
                let stage3 = classes_stage(src, toks, p2);
                match stage3.0 {
                    Err(e) => (Err(e), stage3.1),
                    Ok(classes) => {
                        let p3: nat = step_up(len, p2, stage3.1);
                        let stage4 = attrs_stage(src, toks, p3);
                        match stage4.0 {
                            Err(e) => (Err(e), stage4.1),
                            Ok(attrs) => {
                                let p4: nat = step_up(len, p3, stage4.1);
                                let stage5 = content_stage(src, toks, p4);
                                match stage5.0 {
                                    Err(e) => (Err(e), stage5.1),
                                    Ok(content) => {
                                        let p5: nat = step_up(len, p4, stage5.1);
                                        if p5 < len && toks[p5 as int].0 is Newline {
                                            if p5 + 1 < len && toks[p5 as int + 1].0 is Indent {
                                                let f = file_spec(src, toks, p5 + 2, Seq::empty());
                                                match f.0 {
                                                    Err(e) => (Err(e), f.1),
                                                    Ok(kids) => (
                                                        Ok(
                                                            TagV {
                                                                name,
                                                                attrs,
                                                                id,
                                                                classes,
                                                                children: kids,
                                                                content,
                                                            },
                                                        ),
                                                        f.1,
                                                    ),
                                                }
                                            } else if p5 + 1 < len && toks[p5 as int
                                                + 1].0 is Dedent {
                                                (
                                                    Ok(
                                                        TagV {
                                                            name,
                                                            attrs,
                                                            id,
                                                            classes,
                                                            children: Seq::empty(),
                                                            content,
                                                        },
                                                    ),
                                                    p5 + 1,
                                                )
                                            } else {
                                                (
                                                    Ok(
                                                        TagV {
                                                            name,
                                                            attrs,
                                                            id,
                                                            classes,
                                                            children: Seq::empty(),
                                                            content,
                                                        },
                                                    ),
                                                    p5,
                                                )
                                            }
                                        } else {
                                            (
                                                Ok(
                                                    TagV {
                                                        name,
                                                        attrs,
                                                        id,
                                                        classes,
                                                        children: Seq::empty(),
                                                        content,
                                                    },
                                                ),
                                                p5,
                                            )
                                        }
                                    },
                                }
                            },
                        }
                    },
                }
            },
        }
    }
}

/// A sibling list: elements separated by `Newline`, closed by a consumed
/// `Dedent` (one `Dedent` closes exactly one list), by end of input, or by
/// any token that starts neither a separator nor a sibling.
pub open spec fn file_spec(src: Seq<char>, toks: Seq<(TokenV, Span)>, pos: nat, acc: Seq<TagV>) -> (
    Result<Seq<TagV>, ParserErrorV>,
    nat,
)
    decreases toks.len() - pos, 1nat,
{
    let len = toks.len();
    if pos >= len {
        (Ok(acc), pos)
    } else {
        let t = tag_spec(src, toks, pos);
        match t.0 {
            Err(e) => (Err(e), t.1),
            Ok(tv) => {
                let p1: nat = step_up(len, pos, t.1);
                if p1 >= len {
                    (Ok(acc.push(tv)), p1)
                } else if toks[p1 as int].0 is Newline {
                    file_spec(src, toks, p1 + 1, acc.push(tv))
                } else if toks[p1 as int].0 is Dedent {
                    (Ok(acc.push(tv)), p1 + 1)
                } else {
                    (Ok(acc.push(tv)), p1)
                }
            },
        }
    }
}

/// What parsing an input yields: the token stream is consumed by the
/// top-level sibling list, and anything left over is an error.
pub open spec fn parse_result(src: Seq<char>) -> Result<Seq<TagV>, ErrorV> {
    let toks = full_lex(src);
    let f = file_spec(src, toks, 0, Seq::empty());
    match f.0 {
        Err(e) => Err(ErrorV::Parser(e)),
        Ok(tags) => if f.1 < toks.len() {
            Err(
                ErrorV::Parser(
                    ParserErrorV::ExpectedEOF {
                        found: toks[f.1 as int].0,
                        span: toks[f.1 as int].1,
                    },
                ),
            )
        } else {
            Ok(tags)
        },
    }
}

/// Whether no attribute key occurs twice.
pub open spec fn unique_keys(attrs: Seq<(Seq<char>, Option<Seq<char>>)>) -> bool {
    forall|i: int, j: int| 0 <= i < j < attrs.len() ==> attrs[i].0 != attrs[j].0
}

pub proof fn lemma_upsert_keys_unique(
    attrs: Seq<(Seq<char>, Option<Seq<char>>)>,
    k: Seq<char>,
    v: Option<Seq<char>>,
)
    requires
        unique_keys(attrs),
    ensures
        unique_keys(upsert(attrs, k, v)),
{
    lemma_find_key(attrs, k);
    let f = find_key(attrs, k);
    if f >= 0 {
        let u = attrs.update(f, (k, v));
        assert forall|i: int, j: int| 0 <= i < j < u.len() implies u[i].0 != u[j].0 by {
            if i == f {
                assert(attrs[f].0 == k);
                assert(u[j] == attrs[j]);
            } else if j == f {
                assert(attrs[f].0 == k);
                assert(u[i] == attrs[i]);
            } else {
                assert(u[i] == attrs[i]);
                assert(u[j] == attrs[j]);
            }
        }
    } else {
        let u = attrs.push((k, v));
        assert forall|i: int, j: int| 0 <= i < j < u.len() implies u[i].0 != u[j].0 by {
            if j == attrs.len() {
                assert(u[i] == attrs[i]);
                assert(attrs[i].0 != k);
            } else {
                assert(u[i] == attrs[i]);
                assert(u[j] == attrs[j]);
            }
        }
    }
}

pub proof fn lemma_attributes_keys_unique(
    src: Seq<char>,
    toks: Seq<(TokenV, Span)>,
    pos: nat,
    acc: Seq<(Seq<char>, Option<Seq<char>>)>,
)
    requires
        unique_keys(acc),
    ensures
        ({
            let r = parse_attributes_spec(src, toks, pos, acc);
            r.0 is Ok ==> unique_keys(r.0->Ok_0)
        }),
    decreases toks.len() - pos,
{
    let len = toks.len();
    if pos >= len {
    } else if toks[pos as int].0 is CloseParen {
    } else {
        match toks[pos as int].0 {
            TokenV::Text(name) => {
                if pos + 1 < len && toks[pos as int + 1].0 is Equals {
                    let (vr, p2) = parse_string_spec(src, toks, pos + 2);
                    match vr {
                        Ok(v) => {
                            lemma_upsert_keys_unique(acc, name, Some(v));
                            let q0 = step_up(len, pos + 2, p2);
                            if q0 < len {
                                let q1: nat = if toks[q0 as int].0 is Comma {
                                    q0 + 1
                                } else {
                                    q0
                                };
                                if q1 < len {
                                    let q2: nat = if toks[q1 as int].0 is WhiteSpace {
                                        q1 + 1
                                    } else {
                                        q1
                                    };
                                    lemma_attributes_keys_unique(
                                        src,
                                        toks,
                                        q2,
                                        upsert(acc, name, Some(v)),
                                    );
                                }
                            }
                        },
                        Err(_) => {},
                    }
                } else {
                    lemma_upsert_keys_unique(acc, name, None);
                    let q0: nat = pos + 1;
                    if q0 < len {
                        let q1: nat = if toks[q0 as int].0 is Comma {
                            q0 + 1
                        } else {
                            q0
                        };
                        if q1 < len {
                            let q2: nat = if toks[q1 as int].0 is WhiteSpace {
                                q1 + 1
                            } else {
                                q1
                            };
                            lemma_attributes_keys_unique(src, toks, q2, upsert(acc, name, None));
                        }
                    }
                }
            },
            _ => {},
        }
    }
}

/// Whether every attribute mapping in the tree keeps its keys unique.
pub open spec fn tag_keys_unique(t: TagV) -> bool
    decreases t,
{
    &&& unique_keys(t.attrs)
    &&& tags_keys_unique(t.children, 0)
}

pub open spec fn tags_keys_unique(ts: Seq<TagV>, i: nat) -> bool
    decreases ts, ts.len() - i,
{
    if i < ts.len() {
        tag_keys_unique(ts[i as int]) && tags_keys_unique(ts, i + 1)
    } else {
        true
    }
}

pub proof fn lemma_tags_keys_unique_iff(ts: Seq<TagV>, i: nat)
    requires
        i <= ts.len(),
    ensures
        tags_keys_unique(ts, i) <==> (forall|k: int|
            i <= k < ts.len() ==> tag_keys_unique(ts[k])),
    decreases ts.len() - i,
{
    if i < ts.len() {
        lemma_tags_keys_unique_iff(ts, i + 1);
    }
}

proof fn lemma_tag_spec_keys_unique(src: Seq<char>, toks: Seq<(TokenV, Span)>, pos: nat)
    ensures
        ({
            let r = tag_spec(src, toks, pos);
            r.0 is Ok ==> tag_keys_unique(r.0->Ok_0)
        }),
    decreases toks.len() - pos, 0nat,
{
    let len = toks.len();
    if pos >= len {
    } else {
        let stage1 = name_stage(toks, pos);
        let p1 = stage1.1;
        let stage2 = id_stage(src, toks, p1);
        match stage2.0 {
            Err(_) => {},
            Ok(_) => {
                let p2 = stage2.1;
                let stage3 = classes_stage(src, toks, p2);
                match stage3.0 {
                    Err(_) => {},
                    Ok(_) => {
                        let p3: nat = step_up(len, p2, stage3.1);
                        let stage4 = attrs_stage(src, toks, p3);
                        if p3 < len && toks[p3 as int].0 is OpenParen {
                            assert(unique_keys(Seq::<(Seq<char>, Option<Seq<char>>)>::empty()));
                            lemma_attributes_keys_unique(src, toks, p3 + 1, Seq::empty());
                        } else {
                            assert(unique_keys(Seq::<(Seq<char>, Option<Seq<char>>)>::empty()));
                        }
                        match stage4.0 {
                            Err(_) => {},
                            Ok(_) => {
                                let p4: nat = step_up(len, p3, stage4.1);
                                let stage5 = content_stage(src, toks, p4);
                                match stage5.0 {
                                    Err(_) => {},
                                    Ok(_) => {
                                        let p5: nat = step_up(len, p4, stage5.1);
                                        if p5 < len && toks[p5 as int].0 is Newline {
                                            if p5 + 1 < len && toks[p5 as int + 1].0 is Indent {
                                                lemma_file_spec_keys_unique(
                                                    src,
                                                    toks,
                                                    p5 + 2,
                                                    Seq::empty(),
                                                );
                                            }
                                        }
                                    },
                                }
                            },
                        }
                    },
                }
            },
        }
    }
}

proof fn lemma_file_spec_keys_unique(
    src: Seq<char>,
    toks: Seq<(TokenV, Span)>,
    pos: nat,
    acc: Seq<TagV>,
)
    requires
        tags_keys_unique(acc, 0),
    ensures
        ({
            let r = file_spec(src, toks, pos, acc);
            r.0 is Ok ==> tags_keys_unique(r.0->Ok_0, 0)
        }),
    decreases toks.len() - pos, 1nat,
{
    let len = toks.len();
    if pos >= len {
    } else {
        let t = tag_spec(src, toks, pos);
        lemma_tag_spec_keys_unique(src, toks, pos);
        match t.0 {
            Err(_) => {},
            Ok(tv) => {
                lemma_tags_keys_unique_iff(acc, 0);
                lemma_tags_keys_unique_iff(acc.push(tv), 0);
                assert(tags_keys_unique(acc.push(tv), 0));
                let p1: nat = step_up(len, pos, t.1);
                if p1 < len && toks[p1 as int].0 is Newline {
                    lemma_file_spec_keys_unique(src, toks, p1 + 1, acc.push(tv));
                }
            },
        }
    }
}

/// Law: in every tree the parser returns, each element's attribute mapping
/// holds its keys once — a repeated key in the source has overwritten the
/// earlier value, never produced a second entry.
pub proof fn lemma_parse_keys_unique(src: Seq<char>)
    ensures
        parse_result(src) is Ok ==> tags_keys_unique(parse_result(src)->Ok_0, 0),
{
    lemma_file_spec_keys_unique(src, full_lex(src), 0, Seq::empty());
}

/// Law: parsing is a pure function of the input buffer — two buffers holding
/// the same characters parse to the same tokens and the same result.
pub proof fn lemma_parse_pure(a: Seq<char>, b: Seq<char>)
    requires
        a =~= b,
    ensures
        full_lex(a) == full_lex(b),
        parse_result(a) == parse_result(b),
{
    assert(a == b);
}

// ---------------------------------------------------------------------------
// The executable parser.
// ---------------------------------------------------------------------------

/// The parser's input: the structural tokens with their spans, the source
/// buffer the spans point into, and the current position. Checkpointing is a
/// saved position, rewinding restores it.
pub struct TokenStream {
    pub src: String,
    pub toks: Vec<(Token, Span)>,
    pub pos: usize,
}

impl TokenStream {
    /// The structural tokens as the model sees them.
    pub open spec fn tv(&self) -> Seq<(TokenV, Span)> {
        spanned_view(self.toks@)
    }

    pub open spec fn wf(&self) -> bool {
        self.pos <= self.toks@.len()
    }

    /// The span of the exhaustion point.
    fn eof_sp(&self) -> (sp: Span)
        ensures
            sp == eof_span(self.src@),
    {
        let n = self.src.as_str().unicode_len();
        Span { start: n, end: n }
    }

    /// The source text from the start of the token at `start` to the end of
    /// the token at `cur - 1`.
    fn text_since(&self, start: usize, cur: usize) -> (r: String)
        requires
            cur <= self.toks@.len(),
        ensures
            r@ == span_text(self.src@, self.tv(), start as nat, cur as nat),
    {
        if start < cur {
            let a = self.toks[start].1.start;
            let b = self.toks[cur - 1].1.end;
            let n = self.src.as_str().unicode_len();
            if a <= b && b <= n {
                let sub = self.src.as_str().substring_char(a, b);
                sub.to_owned()
            } else {
                String::new()
            }
        } else {
            String::new()
        }
    }
}

/// Copy a token, slice included.
fn token_clone(t: &Token) -> (r: Token)
    ensures
        r@ == t@,
{
    match t {
        Token::Indent => Token::Indent,
        Token::Dedent => Token::Dedent,
        Token::Newline => Token::Newline,
        Token::Text(s) => Token::Text(s.clone()),
        Token::Quote(s) => Token::Quote(s.clone()),
        Token::Dot => Token::Dot,
        Token::Hash => Token::Hash,
        Token::OpenParen => Token::OpenParen,
        Token::CloseParen => Token::CloseParen,
        Token::Equals => Token::Equals,
        Token::Comma => Token::Comma,
        Token::WhiteSpace => Token::WhiteSpace,
        Token::Error(s) => Token::Error(s.clone()),
    }
}

/// The expected-set reporting a required text token.
fn expect_text_vec() -> (v: Vec<Token>)
    ensures
        tokens_view(v@) == expect_text(),
{
    let v = vec![Token::Text(String::new())];
    proof {
        assert(tokens_view(v@) =~= expect_text());
    }
    v
}

/// The expected-set reporting a required quote token.
fn expect_quote_vec() -> (v: Vec<Token>)
    ensures
        tokens_view(v@) == expect_quote(),
{
    let v = vec![Token::Quote(String::new())];
    proof {
        assert(tokens_view(v@) =~= expect_quote());
    }
    v
}

/// Parse a quoted value: an opening quote, raw tokens until a quote carrying
/// the same quote character, the raw source text in between as the value.
fn parse_string(input: &mut TokenStream) -> (r: Result<String, ParserError>)
    requires
        old(input).wf(),
    ensures
        final(input).wf(),
        final(input).src@ == old(input).src@,
        final(input).toks@ == old(input).toks@,
        old(input).pos <= final(input).pos,
        ({
            let sr = parse_string_spec(old(input).src@, old(input).tv(), old(input).pos as nat);
            &&& final(input).pos == sr.1
            &&& match r {
                Ok(s) => sr.0 == Ok::<Seq<char>, ParserErrorV>(s@),
                Err(e) => sr.0 == Err::<Seq<char>, ParserErrorV>(e@),
            }
        }),
{
    let n = input.toks.len();
    if input.pos >= n {
        return Err(ParserError::unexpected_eof(input.eof_sp(), Some(expect_quote_vec())));
    }
    let cur = token_clone(&input.toks[input.pos].0);
    let qc: String = match cur {
        Token::Quote(s) => s,
        _ => {
            let sp = input.toks[input.pos].1;
            return Err(ParserError::expected_token_found(sp, expect_quote_vec(), cur));
        },
    };
    input.pos = input.pos + 1;
    let start = input.pos;
    loop
        invariant
            input.wf(),
            input.src@ == old(input).src@,
            input.toks@ == old(input).toks@,
            n == input.toks@.len(),
            start <= input.pos <= n,
            start == old(input).pos + 1,
            parse_string_spec(old(input).src@, old(input).tv(), old(input).pos as nat)
                == scan_string_spec(
                input.src@,
                input.tv(),
                qc@,
                start as nat,
                input.pos as nat,
            ),
        decreases n - input.pos,
    {
        if input.pos >= n {
            return Err(ParserError::unexpected_eof(input.eof_sp(), None));
        }
        let is_close = match &input.toks[input.pos].0 {
            Token::Quote(s) => *s == qc,
            _ => false,
        };
        if is_close {
            let text = input.text_since(start, input.pos);
            input.pos = input.pos + 1;
            return Ok(text);
        }
        input.pos = input.pos + 1;
    }
}

/// Parse trailing content: the raw source text of every token up to, but not
/// including, the next `Newline`.
fn parse_content(input: &mut TokenStream) -> (r: Result<String, ParserError>)
    requires
        old(input).wf(),
    ensures
        final(input).wf(),
        final(input).src@ == old(input).src@,
        final(input).toks@ == old(input).toks@,
        old(input).pos <= final(input).pos,
        ({
            let sr = parse_content_spec(
                old(input).src@,
                old(input).tv(),
                old(input).pos as nat,
                old(input).pos as nat,
            );
            &&& final(input).pos == sr.1
            &&& match r {
                Ok(s) => sr.0 == Ok::<Seq<char>, ParserErrorV>(s@),
                Err(e) => sr.0 == Err::<Seq<char>, ParserErrorV>(e@),
            }
        }),
{
    let n = input.toks.len();
    let start = input.pos;
    loop
        invariant
            input.wf(),
            input.src@ == old(input).src@,
            input.toks@ == old(input).toks@,
            n == input.toks@.len(),
            start <= input.pos <= n,
            start == old(input).pos,
            parse_content_spec(old(input).src@, old(input).tv(), start as nat, start as nat)
                == parse_content_spec(input.src@, input.tv(), start as nat, input.pos as nat),
        decreases n - input.pos,
    {
        if input.pos >= n {
            return Err(ParserError::unexpected_eof(input.eof_sp(), None));
        }
        if matches!(&input.toks[input.pos].0, Token::Newline) {
            let text = input.text_since(start, input.pos);
            return Ok(text);
        }
        input.pos = input.pos + 1;
    }
}

/// Parse a class list: `.name`, repeated.
fn parse_classes(input: &mut TokenStream) -> (r: Result<Vec<String>, ParserError>)
    requires
        old(input).wf(),
    ensures
        final(input).wf(),
        final(input).src@ == old(input).src@,
        final(input).toks@ == old(input).toks@,
        old(input).pos <= final(input).pos,
        ({
            let sr = parse_classes_spec(
                old(input).src@,
                old(input).tv(),
                old(input).pos as nat,
                Seq::empty(),
            );
            &&& final(input).pos == sr.1
            &&& match r {
                Ok(cs) => sr.0 == Ok::<Seq<Seq<char>>, ParserErrorV>(
                    cs@.map_values(|s: String| s@),
                ),
                Err(e) => sr.0 == Err::<Seq<Seq<char>>, ParserErrorV>(e@),
            }
        }),
{
    let n = input.toks.len();
    let mut acc: Vec<String> = Vec::new();
    proof {
        assert(acc@.map_values(|s: String| s@) =~= Seq::<Seq<char>>::empty());
    }
    loop
        invariant
            input.wf(),
            input.src@ == old(input).src@,
            input.toks@ == old(input).toks@,
            n == input.toks@.len(),
            old(input).pos <= input.pos <= n,
            parse_classes_spec(
                old(input).src@,
                old(input).tv(),
                old(input).pos as nat,
                Seq::empty(),
            ) == parse_classes_spec(
                input.src@,
                input.tv(),
                input.pos as nat,
                acc@.map_values(|s: String| s@),
            ),
        decreases n - input.pos,
    {
        if input.pos >= n {
            return Ok(acc);
        }
        if !matches!(&input.toks[input.pos].0, Token::Dot) {
            return Ok(acc);
        }
        if input.pos + 1 >= n {
            input.pos = input.pos + 1;
            return Err(ParserError::unexpected_eof(input.eof_sp(), Some(expect_text_vec())));
        }
        let cur = token_clone(&input.toks[input.pos + 1].0);
        match cur {
            Token::Text(t) => {
                let ghost prev = acc@;
                acc.push(t);
                input.pos = input.pos + 2;
                proof {
                    assert(acc@.map_values(|s: String| s@) =~= prev.map_values(
                        |s: String| s@,
                    ).push(acc@[prev.len() as int]@));
                }
            },
            _ => {
                let sp = input.toks[input.pos + 1].1;
                input.pos = input.pos + 1;
                return Err(ParserError::expected_token_found(sp, expect_text_vec(), cur));
            },
        }
    }
}

/// Record one attribute into the list: a later occurrence of a key
/// overwrites the earlier value in place, a new key is appended.
fn upsert_attr(attrs: &mut Vec<(String, Option<String>)>, k: String, v: Option<String>)
    ensures
        attrs_view(final(attrs)@) == upsert(attrs_view(old(attrs)@), k@, opt_view(v)),
{
    proof {
        lemma_find_key(attrs_view(attrs@), k@);
    }
    let n = attrs.len();
    let mut i: usize = 0;
    while i < n
        invariant
            i <= n,
            n == attrs@.len(),
            attrs@ == old(attrs)@,
            forall|j: int| 0 <= j < i ==> attrs_view(attrs@)[j].0 != k@,
        decreases n - i,
    {
        if attrs[i].0 == k {
            proof {
                let av = attrs_view(attrs@);
                lemma_find_key(av, k@);
                assert(av[i as int].0 == k@);
                let f = find_key(av, k@);
                if f < i {
                    assert(av[f].0 != k@);
                    assert(false);
                }
                if f > i {
                    assert(av[i as int].0 != k@);
                    assert(false);
                }
                assert(f == i);
            }
            attrs.set(i, (k, v));
            proof {
                assert(attrs_view(attrs@) =~= attrs_view(old(attrs)@).update(
                    i as int,
                    (k@, opt_view(v)),
                ));
            }
            return ;
        }
        i = i + 1;
    }
    proof {
        let av = attrs_view(attrs@);
        lemma_find_key(av, k@);
        let f = find_key(av, k@);
        if f >= 0 {
            assert(av[f].0 == k@);
            assert(false);
        }
    }
    attrs.push((k, v));
    proof {
        assert(attrs_view(attrs@) =~= attrs_view(old(attrs)@).push((k@, opt_view(v))));
    }
}

/// Parse an attribute list up to and including the closing parenthesis.
fn parse_attributes(input: &mut TokenStream) -> (r: Result<
    Vec<(String, Option<String>)>,
    ParserError,
>)
    requires
        old(input).wf(),
    ensures
        final(input).wf(),
        final(input).src@ == old(input).src@,
        final(input).toks@ == old(input).toks@,
        old(input).pos <= final(input).pos,
        ({
            let sr = parse_attributes_spec(
                old(input).src@,
                old(input).tv(),
                old(input).pos as nat,
                Seq::empty(),
            );
            &&& final(input).pos == sr.1
            &&& match r {
                Ok(a) => sr.0 == Ok::<Seq<(Seq<char>, Option<Seq<char>>)>, ParserErrorV>(
                    attrs_view(a@),
                ),
                Err(e) => sr.0 == Err::<Seq<(Seq<char>, Option<Seq<char>>)>, ParserErrorV>(e@),
            }
        }),
{
    let n = input.toks.len();
    let mut acc: Vec<(String, Option<String>)> = Vec::new();
    proof {
        assert(attrs_view(acc@) =~= Seq::<(Seq<char>, Option<Seq<char>>)>::empty());
    }
    loop
        invariant
            input.wf(),
            input.src@ == old(input).src@,
            input.toks@ == old(input).toks@,
            n == input.toks@.len(),
            old(input).pos <= input.pos <= n,
            parse_attributes_spec(
                old(input).src@,
                old(input).tv(),
                old(input).pos as nat,
                Seq::empty(),
            ) == parse_attributes_spec(
                input.src@,
                input.tv(),
                input.pos as nat,
                attrs_view(acc@),
            ),
        decreases n - input.pos,
    {
        if input.pos >= n {
            return Err(ParserError::unexpected_eof(input.eof_sp(), None));
        }
        if matches!(&input.toks[input.pos].0, Token::CloseParen) {
            input.pos = input.pos + 1;
            return Ok(acc);
        }
        let ghost pos_name: nat = input.pos as nat;
        let cur = token_clone(&input.toks[input.pos].0);
        let name: String = match cur {
            Token::Text(t) => t,
            _ => {
                let sp = input.toks[input.pos].1;
                return Err(ParserError::expected_token_found(sp, expect_text_vec(), cur));
            },
        };
        if input.pos + 1 < n && matches!(&input.toks[input.pos + 1].0, Token::Equals) {
            input.pos = input.pos + 2;
            match parse_string(input) {
                Err(e) => {
                    return Err(e);
                },
                Ok(v) => {
                    upsert_attr(&mut acc, name, Some(v));
                },
            }
        } else {
            upsert_attr(&mut acc, name, None);
            input.pos = input.pos + 1;
        }
        if input.pos >= n {
            return Err(ParserError::unexpected_eof(input.eof_sp(), None));
        }
        if matches!(&input.toks[input.pos].0, Token::Comma) {
            input.pos = input.pos + 1;
        }
        if input.pos >= n {
            return Err(ParserError::unexpected_eof(input.eof_sp(), None));
        }
        if matches!(&input.toks[input.pos].0, Token::WhiteSpace) {
            input.pos = input.pos + 1;
        }
    }
}

/// Parse one element: header (name, id, classes, attributes, content), then
/// decide about children on one token of lookahead, rewinding the tentatively
/// consumed `Newline` where it turns out to separate siblings.
#[verifier::rlimit(100)]
#[verifier::spinoff_prover]
fn tag(input: &mut TokenStream) -> (r: Result<Tag, ParserError>)
    requires
        old(input).wf(),
    ensures
        final(input).wf(),
        final(input).src@ == old(input).src@,
        final(input).toks@ == old(input).toks@,
        old(input).pos <= final(input).pos,
        ({
            let sr = tag_spec(old(input).src@, old(input).tv(), old(input).pos as nat);
            &&& final(input).pos == sr.1
            &&& match r {
                Ok(t) => sr.0 == Ok::<TagV, ParserErrorV>(t@),
                Err(e) => sr.0 == Err::<TagV, ParserErrorV>(e@),
            }
        }),
    decreases input.toks@.len() - input.pos, 0int,
{
    let ghost src0 = old(input).src@;
    let ghost tv0 = old(input).tv();
    let ghost p0: nat = old(input).pos as nat;
    let n = input.toks.len();
    if input.pos >= n {
        return Err(ParserError::unexpected_eof(input.eof_sp(), None));
    }
    let mut name: String = "div".to_owned();
    match &input.toks[input.pos].0 {
        Token::Text(s) => {
            name = s.clone();
            input.pos = input.pos + 1;
        },
        _ => {},
    }
    proof {
        assert(name_stage(tv0, p0) == (name@, input.pos as nat));
    }
    let ghost p1: nat = input.pos as nat;
    let mut id: Option<String> = None;
    if input.pos < n && matches!(&input.toks[input.pos].0, Token::Hash) {
        if input.pos + 1 >= n {
            input.pos = input.pos + 1;
            proof {
                assert(tag_spec(src0, tv0, p0).1 == input.pos as nat);
            }
            return Err(ParserError::unexpected_eof(input.eof_sp(), Some(expect_text_vec())));
        }
        let cur = token_clone(&input.toks[input.pos + 1].0);
        match cur {
            Token::Text(t) => {
                id = Some(t);
                input.pos = input.pos + 2;
            },
            _ => {
                let sp = input.toks[input.pos + 1].1;
                input.pos = input.pos + 1;
                return Err(ParserError::expected_token_found(sp, expect_text_vec(), cur));
            },
        }
    }
    proof {
        assert(id_stage(src0, tv0, p1) == (
            Ok::<Option<Seq<char>>, ParserErrorV>(opt_view(id)),
            input.pos as nat,
        ));
    }
    let ghost p2: nat = input.pos as nat;
    let mut classes: Vec<String> = Vec::new();
    proof {
        assert(classes@.map_values(|s: String| s@) =~= Seq::<Seq<char>>::empty());
    }
    if input.pos < n && matches!(&input.toks[input.pos].0, Token::Dot) {
        match parse_classes(input) {
            Ok(cs) => {
                classes = cs;
            },
            Err(e) => {
                proof {
                    assert(classes_stage(src0, tv0, p2) == (
                        Err::<Seq<Seq<char>>, ParserErrorV>(e@),
                        input.pos as nat,
                    ));
                }
                return Err(e);
            },
        }
    }
    proof {
        assert(classes_stage(src0, tv0, p2) == (
            Ok::<Seq<Seq<char>>, ParserErrorV>(classes@.map_values(|s: String| s@)),
            input.pos as nat,
        ));
        assert(step_up(tv0.len(), p2, input.pos as nat) == input.pos as nat);
    }
    let ghost p3: nat = input.pos as nat;
    let mut attrs: Vec<(String, Option<String>)> = Vec::new();
    proof {
        assert(attrs_view(attrs@) =~= Seq::<(Seq<char>, Option<Seq<char>>)>::empty());
    }
    if input.pos < n && matches!(&input.toks[input.pos].0, Token::OpenParen) {
        input.pos = input.pos + 1;
        match parse_attributes(input) {
            Ok(a) => {
                attrs = a;
            },
            Err(e) => {
                proof {
                    assert(attrs_stage(src0, tv0, p3) == (
                        Err::<Seq<(Seq<char>, Option<Seq<char>>)>, ParserErrorV>(e@),
                        input.pos as nat,
                    ));
                }
                return Err(e);
            },
        }
    }
    proof {
        assert(attrs_stage(src0, tv0, p3) == (
            Ok::<Seq<(Seq<char>, Option<Seq<char>>)>, ParserErrorV>(attrs_view(attrs@)),
            input.pos as nat,
        ));
        assert(step_up(tv0.len(), p3, input.pos as nat) == input.pos as nat);
    }
    let ghost p4: nat = input.pos as nat;
    let mut content: Option<String> = None;
    if input.pos < n && matches!(&input.toks[input.pos].0, Token::WhiteSpace) {
        input.pos = input.pos + 1;
        match parse_content(input) {
            Ok(c) => {
                content = Some(c);
            },
            Err(e) => {
                proof {
                    assert(content_stage(src0, tv0, p4) == (
                        Err::<Option<Seq<char>>, ParserErrorV>(e@),
                        input.pos as nat,
                    ));
                }
                return Err(e);
            },
        }
    }
    proof {
        assert(content_stage(src0, tv0, p4) == (
            Ok::<Option<Seq<char>>, ParserErrorV>(opt_view(content)),
            input.pos as nat,
        ));
        assert(step_up(tv0.len(), p4, input.pos as nat) == input.pos as nat);
    }
    let ghost p5: nat = input.pos as nat;
    let mut children: Vec<Tag> = Vec::new();
    proof {
        assert(tags_view(children@, 0) =~= Seq::<TagV>::empty());
    }
    if input.pos < n && matches!(&input.toks[input.pos].0, Token::Newline) {
        let save = input.pos;
        input.pos = input.pos + 1;
        if input.pos < n && matches!(&input.toks[input.pos].0, Token::Indent) {
            input.pos = input.pos + 1;
            match file(input) {
                Ok(kids) => {
                    children = kids;
                },
                Err(e) => {
                    return Err(e);
                },
            }
        } else if input.pos < n && matches!(&input.toks[input.pos].0, Token::Dedent) {
            // this element is closed; the dedent stays for the enclosing list
        } else {
            // the newline separated siblings: rewind to the checkpoint
            input.pos = save;
        }
    }
    let result = Tag { name, attrs, id, classes, children, content };
    Ok(result)
}

/// Parse a sibling list: elements separated by `Newline`, closed by a
/// consumed `Dedent`, by end of input, or by any other token.
fn file(input: &mut TokenStream) -> (r: Result<Vec<Tag>, ParserError>)
    requires
        old(input).wf(),
    ensures
        final(input).wf(),
        final(input).src@ == old(input).src@,
        final(input).toks@ == old(input).toks@,
        old(input).pos <= final(input).pos,
        ({
            let sr = file_spec(
                old(input).src@,
                old(input).tv(),
                old(input).pos as nat,
                Seq::empty(),
            );
            &&& final(input).pos == sr.1
            &&& match r {
                Ok(tags) => sr.0 == Ok::<Seq<TagV>, ParserErrorV>(vtags_view(tags@)),
                Err(e) => sr.0 == Err::<Seq<TagV>, ParserErrorV>(e@),
            }
        }),
    decreases input.toks@.len() - input.pos, 1int,
{
    let n = input.toks.len();
    let mut acc: Vec<Tag> = Vec::new();
    proof {
        assert(vtags_view(acc@) =~= Seq::<TagV>::empty());
    }
    loop
        invariant
            input.wf(),
            input.src@ == old(input).src@,
            input.toks@ == old(input).toks@,
            n == input.toks@.len(),
            old(input).pos <= input.pos <= n,
            file_spec(old(input).src@, old(input).tv(), old(input).pos as nat, Seq::empty())
                == file_spec(input.src@, input.tv(), input.pos as nat, vtags_view(acc@)),
        decreases n - input.pos,
    {
        if input.pos >= n {
            return Ok(acc);
        }
        let t = match tag(input) {
            Ok(t) => t,
            Err(e) => {
                return Err(e);
            },
        };
        let ghost prev = acc@;
        acc.push(t);
        proof {
            crate::ast::lemma_vtags_view_push(prev, acc@[prev.len() as int]);
            assert(acc@ =~= prev.push(acc@[prev.len() as int]));
        }
        if input.pos >= n {
            return Ok(acc);
        }
        if matches!(&input.toks[input.pos].0, Token::Newline) {
            input.pos = input.pos + 1;
        } else if matches!(&input.toks[input.pos].0, Token::Dedent) {
            input.pos = input.pos + 1;
            return Ok(acc);
        } else {
            return Ok(acc);
        }
    }
}

/// Parse a whole document: the ordered top-level elements of the input, or
/// the first error encountered. Tokens the top-level list does not consume
/// are an error of their own.
pub fn parse(input: &str) -> (r: Result<Vec<Tag>, Error>)
    ensures
        match r {
            Ok(tags) => parse_result(input@) == Ok::<Seq<TagV>, ErrorV>(vtags_view(tags@)),
            Err(e) => parse_result(input@) == Err::<Seq<TagV>, ErrorV>(e@),
        },
{
    let toks = lex_all(input);
    let mut ts = TokenStream { src: input.to_owned(), toks, pos: 0 };
    match file(&mut ts) {
        Err(e) => Err(Error::Parser(e)),
        Ok(tags) => {
            if ts.pos < ts.toks.len() {
                let found = token_clone(&ts.toks[ts.pos].0);
                let sp = ts.toks[ts.pos].1;
                Err(Error::Parser(ParserError::expected_eof_found(sp, found)))
            } else {
                Ok(tags)
            }
        },
    }
}

} // verus!
