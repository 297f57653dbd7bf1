use vstd::prelude::*;
use vstd::string::*;

use crate::errors::Span;
use crate::iter::NanoPeek;

verus! {

// ---------------------------------------------------------------------------
// Raw tokens: the tokenizer's output.
// ---------------------------------------------------------------------------

/// A primitive lexical class. The tokenizer classifies runs of source
/// characters into these; the structural lexer then rewrites `Indent` and
/// `Newline` into explicit structural events.
#[derive(Clone, Copy, Debug, PartialEq, Eq, Structural)]
pub enum SmallToken {
    Indent,
    Newline,
    Text,
    Quote,
    Dot,
    Hash,
    OpenParen,
    CloseParen,
    Equals,
    Comma,
    WhiteSpace,
}

/// A raw token with its character span; `kind` is `None` for a character that
/// no rule matched (the tokenizer never aborts, it always advances).
#[derive(Clone, Copy, Debug)]
pub struct RawToken {
    pub kind: Option<SmallToken>,
    pub span: Span,
}

/// Characters of an identifier or text run: ASCII letters, digits and `-`.
pub open spec fn text_char(c: char) -> bool {
    ('a' <= c && c <= 'z') || ('A' <= c && c <= 'Z') || ('0' <= c && c <= '9') || c == '-'
}

pub open spec fn tab_p() -> spec_fn(char) -> bool {
    |c: char| c == '\t'
}

pub open spec fn space_p() -> spec_fn(char) -> bool {
    |c: char| c == ' '
}

pub open spec fn text_p() -> spec_fn(char) -> bool {
    |c: char| text_char(c)
}

/// First position at or after `i` where `p` stops holding.
pub open spec fn run_end(s: Seq<char>, i: nat, p: spec_fn(char) -> bool) -> nat
    decreases s.len() - i,
{
    if i < s.len() && p(s[i as int]) {
        run_end(s, i + 1, p)
    } else {
        i
    }
}

pub proof fn lemma_run_end(s: Seq<char>, i: nat, p: spec_fn(char) -> bool)
    requires
        i <= s.len(),
    ensures
        i <= run_end(s, i, p) <= s.len(),
    decreases s.len() - i,
{
    if i < s.len() && p(s[i as int]) {
        lemma_run_end(s, i + 1, p);
    }
}

/// The tokenizer (one step per token): greedily match the longest applicable
/// rule at position `i` and recurse after it. Indentation runs are maximal
/// tab runs, or maximal groups of exactly four spaces; a shorter space run is
/// ordinary whitespace, one token per space.
pub open spec fn tokenize_spec(s: Seq<char>, i: nat) -> Seq<RawToken>
    decreases s.len() - i,
{
    if i >= s.len() {
        Seq::empty()
    } else {
        let c = s[i as int];
        if c == '\t' {
            let j = run_end(s, i + 1, tab_p());
            proof {
                lemma_run_end(s, i + 1, tab_p());
            }
            seq![
                RawToken {
                    kind: Some(SmallToken::Indent),
                    span: Span { start: i as usize, end: j as usize },
                },
            ] + tokenize_spec(s, j)
        } else if c == ' ' {
            let j = run_end(s, i + 1, space_p());
            let groups: int = (j - i) / 4;
            if groups >= 1 {
                let e: nat = (i + 4 * groups) as nat;
                proof {
                    lemma_run_end(s, i + 1, space_p());
                    vstd::arithmetic::div_mod::lemma_fundamental_div_mod(j - i, 4);
                }
                seq![
                    RawToken {
                        kind: Some(SmallToken::Indent),
                        span: Span { start: i as usize, end: e as usize },
                    },
                ] + tokenize_spec(s, e)
            } else {
                seq![
                    RawToken {
                        kind: Some(SmallToken::WhiteSpace),
                        span: Span { start: i as usize, end: (i + 1) as usize },
                    },
                ] + tokenize_spec(s, i + 1)
            }
        } else if c == '\n' {
            seq![single_raw(Some(SmallToken::Newline), i)] + tokenize_spec(s, i + 1)
        } else if c == '"' || c == '\'' {
            seq![single_raw(Some(SmallToken::Quote), i)] + tokenize_spec(s, i + 1)
        } else if c == '.' {
            seq![single_raw(Some(SmallToken::Dot), i)] + tokenize_spec(s, i + 1)
        } else if c == '#' {
            seq![single_raw(Some(SmallToken::Hash), i)] + tokenize_spec(s, i + 1)
        } else if c == '(' {
            seq![single_raw(Some(SmallToken::OpenParen), i)] + tokenize_spec(s, i + 1)
        } else if c == ')' {
            seq![single_raw(Some(SmallToken::CloseParen), i)] + tokenize_spec(s, i + 1)
        } else if c == '=' {
            seq![single_raw(Some(SmallToken::Equals), i)] + tokenize_spec(s, i + 1)
        } else if c == ',' {
            seq![single_raw(Some(SmallToken::Comma), i)] + tokenize_spec(s, i + 1)
        } else if text_char(c) {
            let j = run_end(s, i + 1, text_p());
            proof {
                lemma_run_end(s, i + 1, text_p());
            }
            seq![
                RawToken {
                    kind: Some(SmallToken::Text),
                    span: Span { start: i as usize, end: j as usize },
                },
            ] + tokenize_spec(s, j)
        } else {
            seq![single_raw(None, i)] + tokenize_spec(s, i + 1)
        }
    }
}

/// A raw token covering the single character at `i`.
pub open spec fn single_raw(kind: Option<SmallToken>, i: nat) -> RawToken {
    RawToken { kind, span: Span { start: i as usize, end: (i + 1) as usize } }
}

/// Copy the characters of `s` into a vector.
pub fn chars_of(s: &str) -> (v: Vec<char>)
    ensures
        v@ == s@,
{
    let n = s.unicode_len();
    let mut v: Vec<char> = Vec::new();
    let mut i: usize = 0;
    while i < n
        invariant
            i <= n,
            n == s@.len(),
            v@.len() == i,
            forall|k: int| 0 <= k < i ==> v@[k] == s@[k],
        decreases n - i,
    {
        v.push(s.get_char(i));
        i = i + 1;
    }
    proof {
        assert(v@ =~= s@);
    }
    v
}

/// Scan the run of characters satisfying the selected class, starting at
/// `from`; `sel` is 0 for tabs, 1 for spaces, 2 for text characters.
fn scan_while(cs: &Vec<char>, from: usize, sel: u8) -> (j: usize)
    requires
        sel <= 2,
        from <= cs@.len(),
    ensures
        j == run_end(cs@, from as nat, sel_p(sel)),
        from <= j <= cs@.len(),
{
    let n = cs.len();
    let mut j = from;
    while j < n && sel_holds(cs[j], sel)
        invariant
            from <= j <= n,
            n == cs@.len(),
            sel <= 2,
            run_end(cs@, from as nat, sel_p(sel)) == run_end(cs@, j as nat, sel_p(sel)),
        decreases n - j,
    {
        j = j + 1;
    }
    j
}

pub open spec fn sel_p(sel: u8) -> spec_fn(char) -> bool {
    if sel == 0 {
        tab_p()
    } else if sel == 1 {
        space_p()
    } else {
        text_p()
    }
}

/// Whether `c` belongs to the selected character class.
fn sel_holds(c: char, sel: u8) -> (b: bool)
    requires
        sel <= 2,
    ensures
        b == sel_p(sel)(c),
{
    if sel == 0 {
        c == '\t'
    } else if sel == 1 {
        c == ' '
    } else {
        ('a' <= c && c <= 'z') || ('A' <= c && c <= 'Z') || ('0' <= c && c <= '9') || c == '-'
    }
}

/// Classify the whole input into raw tokens, left to right.
pub fn tokenize(s: &str) -> (r: Vec<RawToken>)
    ensures
        r@ == tokenize_spec(s@, 0),
{
    let cs = chars_of(s);
    let n = cs.len();
    let mut out: Vec<RawToken> = Vec::new();
    let mut i: usize = 0;
    while i < n
        invariant
            i <= n,
            n == cs@.len(),
            cs@ == s@,
            tokenize_spec(s@, 0) == out@ + tokenize_spec(s@, i as nat),
        decreases n - i,
    {
        let ghost prev = out@;
        let ghost pi: nat = i as nat;
        let c = cs[i];
        if c == '\t' {
            let j = scan_while(&cs, i + 1, 0);
            out.push(RawToken { kind: Some(SmallToken::Indent), span: Span { start: i, end: j } });
            i = j;
        } else if c == ' ' {
            let j = scan_while(&cs, i + 1, 1);
            let groups = (j - i) / 4;
            if groups >= 1 {
                proof {
                    vstd::arithmetic::div_mod::lemma_fundamental_div_mod((j - i) as int, 4);
                }
                let e = i + 4 * groups;
                out.push(RawToken {
                    kind: Some(SmallToken::Indent),
                    span: Span { start: i, end: e },
                });
                i = e;
            } else {
                out.push(RawToken {
                    kind: Some(SmallToken::WhiteSpace),
                    span: Span { start: i, end: i + 1 },
                });
                i = i + 1;
            }
        } else if sel_holds(c, 2) {
            let j = scan_while(&cs, i + 1, 2);
            out.push(RawToken { kind: Some(SmallToken::Text), span: Span { start: i, end: j } });
            i = j;
        } else {
            let kind: Option<SmallToken> = if c == '\n' {
                Some(SmallToken::Newline)
            } else if c == '"' || c == '\'' {
                Some(SmallToken::Quote)
            } else if c == '.' {
                Some(SmallToken::Dot)
            } else if c == '#' {
                Some(SmallToken::Hash)
            } else if c == '(' {
                Some(SmallToken::OpenParen)
            } else if c == ')' {
                Some(SmallToken::CloseParen)
            } else if c == '=' {
                Some(SmallToken::Equals)
            } else if c == ',' {
                Some(SmallToken::Comma)
            } else {
                None
            };
            out.push(RawToken { kind, span: Span { start: i, end: i + 1 } });
            i = i + 1;
        }
        proof {
            assert(tokenize_spec(s@, pi) == seq![out@[out@.len() - 1]] + tokenize_spec(
                s@,
                i as nat,
            ));
            assert(out@ =~= prev + seq![out@[out@.len() - 1]]);
            assert(tokenize_spec(s@, 0) == out@ + tokenize_spec(s@, i as nat)) by {
                assert(prev + (seq![out@[out@.len() - 1]] + tokenize_spec(s@, i as nat)) =~= (prev
                    + seq![out@[out@.len() - 1]]) + tokenize_spec(s@, i as nat));
            }
        }
    }
    proof {
        assert(out@ + tokenize_spec(s@, i as nat) =~= out@);
    }
    out
}

// ---------------------------------------------------------------------------
// Structural tokens: the structural lexer's output.
// ---------------------------------------------------------------------------

/// A token of the structural stream the parser consumes. `Indent`, `Dedent`
/// and `Newline` are synthetic markers making the off-side rule explicit;
/// `Text`, `Quote` and `Error` carry the matched slice of the source.
#[derive(Clone, Debug, PartialEq, Eq)]
pub enum Token {
    Indent,
    Dedent,
    Newline,
    Text(String),
    Quote(String),
    Dot,
    Hash,
    OpenParen,
    CloseParen,
    Equals,
    Comma,
    WhiteSpace,
    Error(String),
}

/// Mathematical model of a [`Token`]: the same variants over sequences of
/// characters instead of heap strings.
pub enum TokenV {
    Indent,
    Dedent,
    Newline,
    Text(Seq<char>),
    Quote(Seq<char>),
    Dot,
    Hash,
    OpenParen,
    CloseParen,
    Equals,
    Comma,
    WhiteSpace,
    Error(Seq<char>),
}

impl View for Token {
    type V = TokenV;

    open spec fn view(&self) -> TokenV {
        match self {
            Token::Indent => TokenV::Indent,
            Token::Dedent => TokenV::Dedent,
            Token::Newline => TokenV::Newline,
            Token::Text(s) => TokenV::Text(s@),
            Token::Quote(s) => TokenV::Quote(s@),
            Token::Dot => TokenV::Dot,
            Token::Hash => TokenV::Hash,
            Token::OpenParen => TokenV::OpenParen,
            Token::CloseParen => TokenV::CloseParen,
            Token::Equals => TokenV::Equals,
            Token::Comma => TokenV::Comma,
            Token::WhiteSpace => TokenV::WhiteSpace,
            Token::Error(s) => TokenV::Error(s@),
        }
    }
}

/// The characters a span covers, or the empty sequence where the span does
/// not lie within the source.
pub open spec fn slice_of(src: Seq<char>, sp: Span) -> Seq<char> {
    if sp.start <= sp.end && sp.end <= src.len() {
        src.subrange(sp.start as int, sp.end as int)
    } else {
        Seq::empty()
    }
}

/// The depth an indentation run stands for: the number of tabs of a tab run,
/// or the number of four-space groups of a space run. Tab and space depths
/// are compared as bare numbers, without reconciling the two units.
pub open spec fn indent_depth(src: Seq<char>, sp: Span) -> nat {
    let w: int = sp.end - sp.start;
    if w <= 0 {
        0
    } else if sp.start < src.len() && src[sp.start as int] == '\t' {
        w as nat
    } else {
        (w / 4) as nat
    }
}

/// The state of the off-side-rule machine: the current indentation depth,
/// how many `Dedent` tokens are still owed, whether the `Newline` that
/// terminates a dedent run is still owed, and the span of the raw token last
/// consumed (synthetic tokens reuse it).
pub struct LexStateV {
    pub indent: nat,
    pub dedents_left: nat,
    pub just_dedented: bool,
    pub last_span: Span,
}

pub open spec fn lex_init() -> LexStateV {
    LexStateV {
        indent: 0,
        dedents_left: 0,
        just_dedented: false,
        last_span: Span { start: 0, end: 0 },
    }
}

/// The structural token stream still to come, given the raw tokens from
/// position `i` on and the machine state `st`. In priority order: owed
/// `Dedent`s are emitted first, then the `Newline` that terminates a dedent
/// run; then the next raw token is classified. An indentation run deeper than
/// the current depth emits `Indent`, an equal one emits nothing, a shallower
/// one emits one `Dedent` now and owes the rest. A newline followed by an
/// indentation run is passed through; one followed by anything else returns
/// the depth to zero, owing one `Dedent` per open level. End of input behaves
/// like a final line at depth zero, unwinding all remaining open levels.
pub open spec fn lex_spec(src: Seq<char>, raws: Seq<RawToken>, i: nat, st: LexStateV) -> Seq<
    (TokenV, Span),
>
    decreases
            raws.len() - i,
            3 * st.indent + 2 * st.dedents_left + (if st.just_dedented {
                1nat
            } else {
                0nat
            }),
{
    if st.dedents_left > 0 {
        let st2 = LexStateV {
            dedents_left: (st.dedents_left - 1) as nat,
            just_dedented: if st.dedents_left == 1 {
                true
            } else {
                st.just_dedented
            },
            ..st
        };
        seq![(TokenV::Dedent, st.last_span)] + lex_spec(src, raws, i, st2)
    } else if st.just_dedented {
        seq![(TokenV::Newline, st.last_span)] + lex_spec(
            src,
            raws,
            i,
            LexStateV { just_dedented: false, ..st },
        )
    } else if i >= raws.len() {
        if st.indent > 0 {
            lex_spec(src, raws, i, LexStateV { indent: 0, dedents_left: st.indent, ..st })
        } else {
            Seq::empty()
        }
    } else {
        let rt = raws[i as int];
        let st1 = LexStateV { last_span: rt.span, ..st };
        match rt.kind {
            None => seq![(TokenV::Error(slice_of(src, rt.span)), rt.span)] + lex_spec(
                src,
                raws,
                i + 1,
                st1,
            ),
            Some(SmallToken::Dot) => seq![(TokenV::Dot, rt.span)] + lex_spec(src, raws, i + 1, st1),
            Some(SmallToken::Hash) => seq![(TokenV::Hash, rt.span)] + lex_spec(
                src,
                raws,
                i + 1,
                st1,
            ),
            Some(SmallToken::OpenParen) => seq![(TokenV::OpenParen, rt.span)] + lex_spec(
                src,
                raws,
                i + 1,
                st1,
            ),
            Some(SmallToken::CloseParen) => seq![(TokenV::CloseParen, rt.span)] + lex_spec(
                src,
                raws,
                i + 1,
                st1,
            ),
            Some(SmallToken::Equals) => seq![(TokenV::Equals, rt.span)] + lex_spec(
                src,
                raws,
                i + 1,
                st1,
            ),
            Some(SmallToken::Comma) => seq![(TokenV::Comma, rt.span)] + lex_spec(
                src,
                raws,
                i + 1,
                st1,
            ),
            Some(SmallToken::WhiteSpace) => seq![(TokenV::WhiteSpace, rt.span)] + lex_spec(
                src,
                raws,
                i + 1,
                st1,
            ),
            Some(SmallToken::Text) => seq![(TokenV::Text(slice_of(src, rt.span)), rt.span)]
                + lex_spec(src, raws, i + 1, st1),
            Some(SmallToken::Quote) => seq![(TokenV::Quote(slice_of(src, rt.span)), rt.span)]
                + lex_spec(src, raws, i + 1, st1),
            Some(SmallToken::Newline) => {
                if i + 1 < raws.len() && raws[i as int + 1].kind == Some(SmallToken::Indent) {
                    seq![(TokenV::Newline, rt.span)] + lex_spec(src, raws, i + 1, st1)
                } else if st.indent > 0 {
                    seq![(TokenV::Newline, rt.span)] + lex_spec(
                        src,
                        raws,
                        i + 1,
                        LexStateV { indent: 0, dedents_left: st.indent, ..st1 },
                    )
                } else {
                    seq![(TokenV::Newline, rt.span)] + lex_spec(src, raws, i + 1, st1)
                }
            },
            Some(SmallToken::Indent) => {
                let d = indent_depth(src, rt.span);
                if d > st.indent {
                    seq![(TokenV::Indent, rt.span)] + lex_spec(
                        src,
                        raws,
                        i + 1,
                        LexStateV { indent: d, ..st1 },
                    )
                } else if d == st.indent {
                    lex_spec(src, raws, i + 1, st1)
                } else {
                    seq![(TokenV::Dedent, rt.span)] + lex_spec(
                        src,
                        raws,
                        i + 1,
                        LexStateV {
                            indent: d,
                            dedents_left: (st.indent - d - 1) as nat,
                            just_dedented: true,
                            ..st1
                        },
                    )
                }
            },
        }
    }
}

/// The full structural token stream of an input.
pub open spec fn full_lex(src: Seq<char>) -> Seq<(TokenV, Span)> {
    lex_spec(src, tokenize_spec(src, 0), 0, lex_init())
}

/// The machine's configuration — raw position and state — after one more
/// structural token has been produced from the configuration given, or the
/// same configuration where no token is left. This steps exactly as
/// [`lex_spec`] does: an owed `Dedent` decrements the debt and arms the
/// trailing `Newline` when the debt reaches zero; the trailing `Newline`
/// clears its flag; a deeper indentation run sets the depth to its value, an
/// equal one changes nothing and the following raw token is classified in the
/// same call, a shallower one sets the depth to its value and owes the rest;
/// a newline followed by anything but an indentation run returns the depth to
/// zero, owing one `Dedent` per open level; end of input unwinds the same
/// way.
pub open spec fn lex_step(src: Seq<char>, raws: Seq<RawToken>, i: nat, st: LexStateV) -> (
    nat,
    LexStateV,
)
    decreases
            raws.len() - i,
            3 * st.indent + 2 * st.dedents_left + (if st.just_dedented {
                1nat
            } else {
                0nat
            }),
{
    if st.dedents_left > 0 {
        (
            i,
            LexStateV {
                dedents_left: (st.dedents_left - 1) as nat,
                just_dedented: if st.dedents_left == 1 {
                    true
                } else {
                    st.just_dedented
                },
                ..st
            },
        )
    } else if st.just_dedented {
        (i, LexStateV { just_dedented: false, ..st })
    } else if i >= raws.len() {
        if st.indent > 0 {
            lex_step(src, raws, i, LexStateV { indent: 0, dedents_left: st.indent, ..st })
        } else {
            (i, st)
        }
    } else {
        let rt = raws[i as int];
        let st1 = LexStateV { last_span: rt.span, ..st };
        match rt.kind {
            Some(SmallToken::Newline) => {
                if i + 1 < raws.len() && raws[i as int + 1].kind == Some(SmallToken::Indent) {
                    (i + 1, st1)
                } else if st.indent > 0 {
                    (i + 1, LexStateV { indent: 0, dedents_left: st.indent, ..st1 })
                } else {
                    (i + 1, st1)
                }
            },
            Some(SmallToken::Indent) => {
                let d = indent_depth(src, rt.span);
                if d > st.indent {
                    (i + 1, LexStateV { indent: d, ..st1 })
                } else if d == st.indent {
                    lex_step(src, raws, i + 1, st1)
                } else {
                    (
                        i + 1,
                        LexStateV {
                            indent: d,
                            dedents_left: (st.indent - d - 1) as nat,
                            just_dedented: true,
                            ..st1
                        },
                    )
                }
            },
            _ => (i + 1, st1),
        }
    }
}

/// Copy the slice a span covers out of the source.
fn extract(src: &String, sp: Span) -> (r: String)
    ensures
        r@ == slice_of(src@, sp),
{
    let n = src.as_str().unicode_len();
    if sp.start <= sp.end && sp.end <= n {
        let sub = src.as_str().substring_char(sp.start, sp.end);
        sub.to_owned()
    } else {
        String::new()
    }
}

/// The off-side-rule state machine over the raw token stream.
pub struct Lexer {
    pub src: String,
    pub raw: NanoPeek<RawToken>,
    pub indent: usize,
    pub just_dedented: bool,
    pub dedents_left: usize,
    pub last_span: Span,
}

impl Lexer {
    /// The machine state as the model sees it.
    pub open spec fn st(&self) -> LexStateV {
        LexStateV {
            indent: self.indent as nat,
            dedents_left: self.dedents_left as nat,
            just_dedented: self.just_dedented,
            last_span: self.last_span,
        }
    }

    pub open spec fn wf(&self) -> bool {
        &&& self.raw.wf()
        &&& self.raw.inner@ == tokenize_spec(self.src@, 0)
    }

    /// The structural tokens this lexer will still produce.
    pub open spec fn model(&self) -> Seq<(TokenV, Span)> {
        lex_spec(self.src@, self.raw.inner@, self.raw.pos as nat, self.st())
    }

    pub fn new(input: &str) -> (r: Self)
        ensures
            r.wf(),
            r.src@ == input@,
            r.model() == full_lex(input@),
            r.indent == 0,
            r.dedents_left == 0,
            !r.just_dedented,
            r.raw.pos == 0,
            r.st() == lex_init(),
    {
        Lexer {
            src: input.to_owned(),
            raw: NanoPeek::new(tokenize(input)),
            indent: 0,
            just_dedented: false,
            dedents_left: 0,
            last_span: Span { start: 0, end: 0 },
        }
    }

    /// Current indentation depth of the machine.
    pub fn depth(&self) -> (d: usize)
        ensures
            d == self.indent,
    {
        self.indent
    }

    /// Produce the next structural token, or `None` once the input is
    /// exhausted and every open level has been unwound. When `None` is
    /// returned the depth has always returned to zero. On a `Some` return the
    /// machine's fields have stepped exactly as [`lex_step`] says: the depth
    /// becomes a deeper run's value, stays on an equal run, becomes a
    /// shallower run's value with the remaining `Dedent`s owed, and returns
    /// to zero when a newline or the end of input unwinds the open levels.
    pub fn next(&mut self) -> (r: Option<(Token, Span)>)
        requires
            old(self).wf(),
        ensures
            final(self).wf(),
            final(self).src@ == old(self).src@,
            final(self).raw.inner@ == old(self).raw.inner@,
            match r {
                Some(t) => {
                    &&& old(self).model() == seq![(t.0@, t.1)] + final(self).model()
                    &&& (final(self).raw.pos as nat, final(self).st()) == lex_step(
                        old(self).src@,
                        old(self).raw.inner@,
                        old(self).raw.pos as nat,
                        old(self).st(),
                    )
                },
                None => {
                    &&& old(self).model() == Seq::<(TokenV, Span)>::empty()
                    &&& final(self).model() == Seq::<(TokenV, Span)>::empty()
                    &&& final(self).indent == 0
                    &&& final(self).dedents_left == 0
                    &&& !final(self).just_dedented
                    &&& final(self).raw.pos == final(self).raw.inner@.len()
                },
            },
        decreases
                self.raw.inner@.len() - self.raw.pos,
                3 * self.indent + 2 * self.dedents_left + (if self.just_dedented {
                    1int
                } else {
                    0int
                }),
    {
        if self.dedents_left > 0 {
            self.dedents_left = self.dedents_left - 1;
            if self.dedents_left == 0 {
                self.just_dedented = true;
            }
            return Some((Token::Dedent, self.last_span));
        }
        if self.just_dedented {
            self.just_dedented = false;
            return Some((Token::Newline, self.last_span));
        }
        let rt = match self.raw.next() {
            Some(rt) => rt,
            None => {
                if self.indent > 0 {
                    // end of input: unwind all the levels still open
                    self.dedents_left = self.indent;
                    self.indent = 0;
                    return self.next();
                }
                return None;
            },
        };
        self.last_span = rt.span;
        match rt.kind {
            None => Some((Token::Error(extract(&self.src, rt.span)), rt.span)),
            Some(SmallToken::Dot) => Some((Token::Dot, rt.span)),
            Some(SmallToken::Hash) => Some((Token::Hash, rt.span)),
            Some(SmallToken::OpenParen) => Some((Token::OpenParen, rt.span)),
            Some(SmallToken::CloseParen) => Some((Token::CloseParen, rt.span)),
            Some(SmallToken::Equals) => Some((Token::Equals, rt.span)),
            Some(SmallToken::Comma) => Some((Token::Comma, rt.span)),
            Some(SmallToken::WhiteSpace) => Some((Token::WhiteSpace, rt.span)),
            Some(SmallToken::Text) => Some((Token::Text(extract(&self.src, rt.span)), rt.span)),
            Some(SmallToken::Quote) => Some((Token::Quote(extract(&self.src, rt.span)), rt.span)),
            Some(SmallToken::Newline) => {
                let peeked = self.raw.peek();
                let next_is_indent = match peeked {
                    Some(nrt) => matches!(nrt.kind, Some(SmallToken::Indent)),
                    None => false,
                };
                if next_is_indent {
                } else if self.indent > 0 {
                    self.dedents_left = self.indent;
                    self.indent = 0;
                }
                Some((Token::Newline, rt.span))
            },
            Some(SmallToken::Indent) => {
                let w = if rt.span.end >= rt.span.start {
                    rt.span.end - rt.span.start
                } else {
                    0
                };
                let n = self.src.as_str().unicode_len();
                let tab = rt.span.start < n && self.src.as_str().get_char(rt.span.start) == '\t';
                let indent_len = if w == 0 {
                    0
                } else if tab {
                    w
                } else {
                    w / 4
                };
                if indent_len > self.indent {
                    self.indent = indent_len;
                    Some((Token::Indent, rt.span))
                } else if indent_len == self.indent {
                    self.next()
                } else {
                    self.dedents_left = self.indent - indent_len - 1;
                    self.just_dedented = true;
                    self.indent = indent_len;
                    Some((Token::Dedent, rt.span))
                }
            },
        }
    }
}

/// The structural tokens of a token vector, as the model sees them.
pub open spec fn spanned_view(v: Seq<(Token, Span)>) -> Seq<(TokenV, Span)> {
    v.map_values(|p: (Token, Span)| (p.0@, p.1))
}

/// Run a full lexing pass over the input.
pub fn lex_all(input: &str) -> (r: Vec<(Token, Span)>)
    ensures
        spanned_view(r@) == full_lex(input@),
{
    let mut lx = Lexer::new(input);
    let mut out: Vec<(Token, Span)> = Vec::new();
    let mut done = false;
    while !done
        invariant
            lx.wf(),
            spanned_view(out@) + lx.model() =~= full_lex(input@),
            done ==> lx.model().len() == 0,
        decreases lx.model().len() + (if done {
            0int
        } else {
            1int
        }),
    {
        let ghost prev = out@;
        match lx.next() {
            Some(t) => {
                out.push(t);
                proof {
                    assert(spanned_view(out@) =~= spanned_view(prev) + seq![(t.0@, t.1)]);
                }
            },
            None => {
                done = true;
            },
        }
    }
    proof {
        assert(spanned_view(out@) =~= full_lex(input@));
    }
    out
}

// ---------------------------------------------------------------------------
// Balance of the structural stream.
// ---------------------------------------------------------------------------

pub open spec fn count_indents(ts: Seq<(TokenV, Span)>) -> nat
    decreases ts.len(),
{
    if ts.len() == 0 {
        0
    } else {
        (if ts[0].0 is Indent {
            1nat
        } else {
            0nat
        }) + count_indents(ts.skip(1))
    }
}

pub open spec fn count_dedents(ts: Seq<(TokenV, Span)>) -> nat
    decreases ts.len(),
{
    if ts.len() == 0 {
        0
    } else {
        (if ts[0].0 is Dedent {
            1nat
        } else {
            0nat
        }) + count_dedents(ts.skip(1))
    }
}

proof fn lemma_count_cons(x: (TokenV, Span), rest: Seq<(TokenV, Span)>)
    ensures
        count_indents(seq![x] + rest) == (if x.0 is Indent {
            1nat
        } else {
            0nat
        }) + count_indents(rest),
        count_dedents(seq![x] + rest) == (if x.0 is Dedent {
            1nat
        } else {
            0nat
        }) + count_dedents(rest),
{
    assert((seq![x] + rest).skip(1) =~= rest);
}

/// Whether, from raw position `i` on at depth `depth`, every indentation run
/// deepens the current depth by at most one level. The depth evolves as the
/// structural lexer drives it: an indentation run sets it, a newline followed
/// by anything but an indentation run returns it to zero.
pub open spec fn gentle_from(src: Seq<char>, raws: Seq<RawToken>, i: nat, depth: nat) -> bool
    decreases raws.len() - i,
{
    if i >= raws.len() {
        true
    } else {
        match raws[i as int].kind {
            Some(SmallToken::Indent) => {
                let d = indent_depth(src, raws[i as int].span);
                d <= depth + 1 && gentle_from(src, raws, i + 1, d)
            },
            Some(SmallToken::Newline) => {
                if i + 1 < raws.len() && raws[i as int + 1].kind == Some(SmallToken::Indent) {
                    gentle_from(src, raws, i + 1, depth)
                } else {
                    gentle_from(src, raws, i + 1, 0)
                }
            },
            _ => gentle_from(src, raws, i + 1, depth),
        }
    }
}

/// Whether every indentation increase in the input deepens the nesting by
/// exactly one level (a deeper jump opens several levels with one `Indent`
/// token, while a matching unwind emits one `Dedent` per level).
pub open spec fn gentle_indentation(src: Seq<char>) -> bool {
    gentle_from(src, tokenize_spec(src, 0), 0, 0)
}

proof fn lemma_balance_from(src: Seq<char>, raws: Seq<RawToken>, i: nat, st: LexStateV)
    requires
        gentle_from(src, raws, i, st.indent),
    ensures
        count_dedents(lex_spec(src, raws, i, st)) == count_indents(lex_spec(src, raws, i, st))
            + st.indent + st.dedents_left,
    decreases
            raws.len() - i,
            3 * st.indent + 2 * st.dedents_left + (if st.just_dedented {
                1nat
            } else {
                0nat
            }),
{
    if st.dedents_left > 0 {
        let st2 = LexStateV {
            dedents_left: (st.dedents_left - 1) as nat,
            just_dedented: if st.dedents_left == 1 {
                true
            } else {
                st.just_dedented
            },
            ..st
        };
        lemma_balance_from(src, raws, i, st2);
        lemma_count_cons((TokenV::Dedent, st.last_span), lex_spec(src, raws, i, st2));
    } else if st.just_dedented {
        let st2 = LexStateV { just_dedented: false, ..st };
        lemma_balance_from(src, raws, i, st2);
        lemma_count_cons((TokenV::Newline, st.last_span), lex_spec(src, raws, i, st2));
    } else if i >= raws.len() {
        if st.indent > 0 {
            let st2 = LexStateV { indent: 0, dedents_left: st.indent, ..st };
            lemma_balance_from(src, raws, i, st2);
        }
    } else {
        let rt = raws[i as int];
        let st1 = LexStateV { last_span: rt.span, ..st };
        match rt.kind {
            None => {
                lemma_balance_from(src, raws, i + 1, st1);
                lemma_count_cons(
                    (TokenV::Error(slice_of(src, rt.span)), rt.span),
                    lex_spec(src, raws, i + 1, st1),
                );
            },
            Some(SmallToken::Dot) => {
                lemma_balance_from(src, raws, i + 1, st1);
                lemma_count_cons((TokenV::Dot, rt.span), lex_spec(src, raws, i + 1, st1));
            },
            Some(SmallToken::Hash) => {
                lemma_balance_from(src, raws, i + 1, st1);
                lemma_count_cons((TokenV::Hash, rt.span), lex_spec(src, raws, i + 1, st1));
            },
            Some(SmallToken::OpenParen) => {
                lemma_balance_from(src, raws, i + 1, st1);
                lemma_count_cons((TokenV::OpenParen, rt.span), lex_spec(src, raws, i + 1, st1));
            },
            Some(SmallToken::CloseParen) => {
                lemma_balance_from(src, raws, i + 1, st1);
                lemma_count_cons((TokenV::CloseParen, rt.span), lex_spec(src, raws, i + 1, st1));
            },
            Some(SmallToken::Equals) => {
                lemma_balance_from(src, raws, i + 1, st1);
                lemma_count_cons((TokenV::Equals, rt.span), lex_spec(src, raws, i + 1, st1));
            },
            Some(SmallToken::Comma) => {
                lemma_balance_from(src, raws, i + 1, st1);
                lemma_count_cons((TokenV::Comma, rt.span), lex_spec(src, raws, i + 1, st1));
            },
            Some(SmallToken::WhiteSpace) => {
                lemma_balance_from(src, raws, i + 1, st1);
                lemma_count_cons((TokenV::WhiteSpace, rt.span), lex_spec(src, raws, i + 1, st1));
            },
            Some(SmallToken::Text) => {
                lemma_balance_from(src, raws, i + 1, st1);
                lemma_count_cons(
                    (TokenV::Text(slice_of(src, rt.span)), rt.span),
                    lex_spec(src, raws, i + 1, st1),
                );
            },
            Some(SmallToken::Quote) => {
                lemma_balance_from(src, raws, i + 1, st1);
                lemma_count_cons(
                    (TokenV::Quote(slice_of(src, rt.span)), rt.span),
                    lex_spec(src, raws, i + 1, st1),
                );
            },
            Some(SmallToken::Newline) => {
                if i + 1 < raws.len() && raws[i as int + 1].kind == Some(SmallToken::Indent) {
                    lemma_balance_from(src, raws, i + 1, st1);
                    lemma_count_cons((TokenV::Newline, rt.span), lex_spec(src, raws, i + 1, st1));
                } else if st.indent > 0 {
                    let st2 = LexStateV { indent: 0, dedents_left: st.indent, ..st1 };
                    lemma_balance_from(src, raws, i + 1, st2);
                    lemma_count_cons((TokenV::Newline, rt.span), lex_spec(src, raws, i + 1, st2));
                } else {
                    lemma_balance_from(src, raws, i + 1, st1);
                    lemma_count_cons((TokenV::Newline, rt.span), lex_spec(src, raws, i + 1, st1));
                }
            },
            Some(SmallToken::Indent) => {
                let d = indent_depth(src, rt.span);
                if d > st.indent {
                    let st2 = LexStateV { indent: d, ..st1 };
                    lemma_balance_from(src, raws, i + 1, st2);
                    lemma_count_cons((TokenV::Indent, rt.span), lex_spec(src, raws, i + 1, st2));
                } else if d == st.indent {
                    lemma_balance_from(src, raws, i + 1, st1);
                } else {
                    let st2 = LexStateV {
                        indent: d,
                        dedents_left: (st.indent - d - 1) as nat,
                        just_dedented: true,
                        ..st1
                    };
                    lemma_balance_from(src, raws, i + 1, st2);
                    lemma_count_cons((TokenV::Dedent, rt.span), lex_spec(src, raws, i + 1, st2));
                }
            },
        }
    }
}

/// Law: over a full lexing pass of an input whose indentation only ever
/// deepens one level at a time, as many `Dedent` as `Indent` tokens are
/// produced — every opened block is eventually closed, including at end of
/// input.
pub proof fn lemma_indent_dedent_balance(src: Seq<char>)
    requires
        gentle_indentation(src),
    ensures
        count_indents(full_lex(src)) == count_dedents(full_lex(src)),
{
    lemma_balance_from(src, tokenize_spec(src, 0), 0, lex_init());
}

} // verus!


