//! Comment stripping.
//!
//! Source text is scanned left to right through four mutually exclusive
//! states: ordinary code, inside a quoted string, inside a line comment and
//! inside a block comment. A line comment starts at `--` and ends at the
//! newline (the newline itself is kept); a block comment starts at `--[`,
//! some number of `=` signs and `[`, and ends at `]`, the same number of
//! `=` signs and `]`. Every byte consumed inside a comment is dropped;
//! everything else — including comment-marker-like bytes inside string
//! literals — is copied through unchanged. An unterminated block comment or
//! string consumes to the end of the buffer without an error.
//!
//! The function [`strip_from`] is the specification: it processes the front
//! of the buffer one delimiter at a time. [`remove_comments`] is the
//! executable stripper, and [`lemma_strip_idempotent`] proves that stripping
//! already-stripped text changes nothing.

use vstd::prelude::*;

use crate::ascii::{BACKSLASH, DASH, DQUOTE, EQUALS, LBRACK, NL, RBRACK, SQUOTE};

verus! {

/// The stripper's state: ordinary code, inside a quoted string (with its
/// quote byte), inside a line comment, or inside a block comment (with the
/// long-bracket level, the number of `=` signs in its delimiters).
pub enum StripMode {
    Code,
    Quoted { q: u8 },
    Line,
    Block { level: int },
}

/// A string-literal delimiter: double or single quote.
pub open spec fn is_quote(c: u8) -> bool {
    c == DQUOTE || c == SQUOTE
}

/// Length of the run of `=` bytes at the front of `s`.
pub open spec fn eq_run(s: Seq<u8>) -> nat
    decreases s.len(),
{
    if s.len() > 0 && s[0] == EQUALS {
        (1 + eq_run(s.skip(1))) as nat
    } else {
        0
    }
}

/// Does `s` continue `--` into a block-comment opener, i.e. start with
/// `--[`, some run of `=` signs, and another `[`?
pub open spec fn block_open(s: Seq<u8>) -> bool {
    s.len() > 3 && s[2] == LBRACK && {
        let k = eq_run(s.skip(3));
        3 + k < s.len() && s[3 + k as int] == LBRACK
    }
}

/// Does `s` start with the closer of a level-`level` block comment:
/// `]`, exactly `level` `=` signs, `]`?
pub open spec fn block_close(s: Seq<u8>, level: int) -> bool {
    &&& s.len() >= level + 2
    &&& s[0] == RBRACK
    &&& eq_run(s.skip(1)) == level
    &&& s[level + 1] == RBRACK
}

/// What stripping leaves of `s` when the scan starts in state `m`.
///
/// In code, a quote byte opens a string, `--` opens a comment (a block
/// comment when `--[=*[` follows, a line comment otherwise), and every
/// other byte is copied. In a string, a backslash escapes the next byte and
/// the opening quote byte closes the string; everything is copied. A line
/// comment drops bytes up to the newline, which is kept; a block comment
/// drops bytes up to and including its closer.
pub open spec fn strip_from(s: Seq<u8>, m: StripMode) -> Seq<u8>
    decreases s.len(),
{
    if s.len() == 0 {
        Seq::empty()
    } else {
        match m {
            StripMode::Code => {
                let c = s[0];
                if is_quote(c) {
                    seq![c] + strip_from(s.skip(1), StripMode::Quoted { q: c })
                } else if c == DASH && s.len() >= 2 && s[1] == DASH {
                    if block_open(s) {
                        let k = eq_run(s.skip(3));
                        strip_from(s.skip(4 + k as int), StripMode::Block { level: k as int })
                    } else {
                        strip_from(s.skip(2), StripMode::Line)
                    }
                } else {
                    seq![c] + strip_from(s.skip(1), StripMode::Code)
                }
            },
            StripMode::Quoted { q } => {
                let c = s[0];
                if c == BACKSLASH {
                    if s.len() >= 2 {
                        seq![c, s[1]] + strip_from(s.skip(2), StripMode::Quoted { q })
                    } else {
                        seq![c]
                    }
                } else if c == q {
                    seq![c] + strip_from(s.skip(1), StripMode::Code)
                } else {
                    seq![c] + strip_from(s.skip(1), StripMode::Quoted { q })
                }
            },
            StripMode::Line => {
                if s[0] == NL {
                    seq![NL] + strip_from(s.skip(1), StripMode::Code)
                } else {
                    strip_from(s.skip(1), StripMode::Line)
                }
            },
            StripMode::Block { level } => {
                if block_close(s, level) {
                    strip_from(s.skip(level + 2), StripMode::Code)
                } else {
                    strip_from(s.skip(1), StripMode::Block { level })
                }
            },
        }
    }
}

/// What stripping leaves of `s`: the comment-free text.
pub open spec fn strip_comments(s: Seq<u8>) -> Seq<u8> {
    strip_from(s, StripMode::Code)
}

/// Counts the `=` run in `src` starting at `from`.
fn count_eq_run(src: &[u8], from: usize) -> (k: usize)
    requires
        from <= src@.len(),
    ensures
        k == eq_run(src@.skip(from as int)),
        from + k <= src@.len(),
{
    let mut j: usize = from;
    while j < src.len() && src[j] == EQUALS
        invariant
            from <= j <= src@.len(),
            eq_run(src@.skip(from as int)) == (j - from) + eq_run(src@.skip(j as int)),
        decreases src@.len() - j,
    {
        proof {
            assert(src@.skip(j as int).skip(1) =~= src@.skip(j as int + 1));
        }
        j = j + 1;
    }
    j - from
}

/// Removes comments from `src`, returning the comment-free text.
///
/// Comment-marker-like bytes inside string literals are kept verbatim, and
/// an unterminated block comment consumes to the end of the buffer.
pub fn remove_comments(src: &[u8]) -> (out: Vec<u8>)
    ensures
        out@ == strip_comments(src@),
{
    let n = src.len();
    let mut out: Vec<u8> = Vec::new();
    let mut i: usize = 0;
    proof {
        assert(src@.skip(0) =~= src@);
    }
    while i < n
        invariant
            n == src@.len(),
            i <= n,
            out@ + strip_from(src@.skip(i as int), StripMode::Code) == strip_comments(src@),
        decreases n - i,
    {
        let c = src[i];
        if c == DQUOTE || c == SQUOTE {
            // A string literal: copy it through verbatim.
            out.push(c);
            proof {
                assert(src@.skip(i as int).skip(1) =~= src@.skip(i as int + 1));
            }
            i = i + 1;
            let ghost i0 = i;
            loop
                invariant_except_break
                    n == src@.len(),
                    i0 <= i <= n,
                    out@ + strip_from(src@.skip(i as int), StripMode::Quoted { q: c }) == strip_comments(src@),
                ensures
                    i0 <= i <= n,
                    out@ + strip_from(src@.skip(i as int), StripMode::Code) == strip_comments(src@),
                decreases n - i,
            {
                if i >= n {
                    // Unterminated string: everything was copied.
                    break;
                }
                let d = src[i];
                if d == BACKSLASH {
                    out.push(d);
                    if i + 1 < n {
                        proof {
                            assert(src@.skip(i as int).skip(2) =~= src@.skip(i as int + 2));
                        }
                        out.push(src[i + 1]);
                        i = i + 2;
                    } else {
                        i = i + 1;
                    }
                } else {
                    out.push(d);
                    proof {
                        assert(src@.skip(i as int).skip(1) =~= src@.skip(i as int + 1));
                    }
                    i = i + 1;
                    if d == c {
                        break;
                    }
                }
            }
        } else if c == DASH && i + 1 < n && src[i + 1] == DASH {
            proof {
                assert(src@.skip(i as int)[1] == src@[i as int + 1]);
            }
            let has_bracket = i + 2 < n && src[i + 2] == LBRACK;
            let k: usize = if has_bracket {
                count_eq_run(src, i + 3)
            } else {
                0
            };
            proof {
                if has_bracket {
                    assert(src@.skip(i as int).skip(3) =~= src@.skip(i as int + 3));
                }
            }
            if has_bracket && i + 3 + k < n && src[i + 3 + k] == LBRACK {
                // Block comment: drop up to and including its closer.
                assert(block_open(src@.skip(i as int)));
                proof {
                    assert(src@.skip(i as int).skip(4 + k as int) =~= src@.skip(i as int + 4 + k));
                }
                i = i + 4 + k;
                let ghost i0 = i;
                loop
                    invariant_except_break
                        n == src@.len(),
                        i0 <= i <= n,
                        k <= n,
                        out@ + strip_from(src@.skip(i as int), StripMode::Block { level: k as int })
                            == strip_comments(src@),
                    ensures
                        i0 <= i <= n,
                        out@ + strip_from(src@.skip(i as int), StripMode::Code) == strip_comments(src@),
                    decreases n - i,
                {
                    if i >= n {
                        // Unterminated block comment: dropped to the end.
                        break;
                    }
                    if src[i] == RBRACK {
                        let r = count_eq_run(src, i + 1);
                        proof {
                            assert(src@.skip(i as int).skip(1) =~= src@.skip(i as int + 1));
                        }
                        if r == k && i + 1 + r < n && src[i + 1 + r] == RBRACK {
                            assert(block_close(src@.skip(i as int), k as int));
                            proof {
                                assert(src@.skip(i as int).skip(k as int + 2) =~= src@.skip(
                                    i as int + k + 2,
                                ));
                            }
                            i = i + 2 + k;
                            break;
                        }
                    }
                    proof {
                        assert(!block_close(src@.skip(i as int), k as int));
                        assert(src@.skip(i as int).skip(1) =~= src@.skip(i as int + 1));
                    }
                    i = i + 1;
                }
            } else {
                // Line comment: drop up to the newline, which is kept.
                assert(!block_open(src@.skip(i as int)));
                proof {
                    assert(src@.skip(i as int).skip(2) =~= src@.skip(i as int + 2));
                }
                i = i + 2;
                let ghost i0 = i;
                loop
                    invariant_except_break
                        n == src@.len(),
                        i0 <= i <= n,
                        out@ + strip_from(src@.skip(i as int), StripMode::Line) == strip_comments(
                            src@,
                        ),
                    ensures
                        i0 <= i <= n,
                        out@ + strip_from(src@.skip(i as int), StripMode::Code) == strip_comments(
                            src@,
                        ),
                    decreases n - i,
                {
                    if i >= n {
                        break;
                    }
                    let d = src[i];
                    proof {
                        assert(src@.skip(i as int).skip(1) =~= src@.skip(i as int + 1));
                    }
                    if d == NL {
                        out.push(d);
                        i = i + 1;
                        break;
                    }
                    i = i + 1;
                }
            }
        } else {
            out.push(c);
            proof {
                assert(src@.skip(i as int).skip(1) =~= src@.skip(i as int + 1));
            }
            i = i + 1;
        }
    }
    proof {
        assert(src@.skip(n as int) =~= Seq::<u8>::empty());
        assert(out@ =~= out@ + Seq::<u8>::empty());
    }
    out
}

/// The state a re-scan of stripped text starts in, for text that was
/// stripped from state `m`: a string keeps its quote state, everything else
/// re-enters ordinary code (a comment leaves nothing behind to re-enter).
pub open spec fn restart(m: StripMode) -> StripMode {
    match m {
        StripMode::Quoted { q } => StripMode::Quoted { q },
        _ => StripMode::Code,
    }
}

/// Stripping from code never drops the first byte unless it opens a
/// comment, so when `s` does not start with `-`, the stripped text starts
/// with that same byte.
proof fn lemma_strip_first_byte(s: Seq<u8>)
    requires
        s.len() > 0,
        s[0] != DASH,
    ensures
        strip_from(s, StripMode::Code).len() > 0,
        strip_from(s, StripMode::Code)[0] == s[0],
{
}

/// Stripping from state `m` and re-stripping the result from `restart(m)`
/// changes nothing: the stripped text contains no comment, and nothing in
/// it opens one on a second scan.
proof fn lemma_strip_from_idem(s: Seq<u8>, m: StripMode)
    ensures
        strip_from(strip_from(s, m), restart(m)) == strip_from(s, m),
    decreases s.len(),
{
    if s.len() == 0 {
    } else {
        match m {
            StripMode::Code => {
                let c = s[0];
                if is_quote(c) {
                    lemma_strip_from_idem(s.skip(1), StripMode::Quoted { q: c });
                    let x = strip_from(s.skip(1), StripMode::Quoted { q: c });
                    assert((seq![c] + x).skip(1) =~= x);
                } else if c == DASH && s.len() >= 2 && s[1] == DASH {
                    if block_open(s) {
                        let k = eq_run(s.skip(3));
                        lemma_strip_from_idem(
                            s.skip(4 + k as int),
                            StripMode::Block { level: k as int },
                        );
                    } else {
                        lemma_strip_from_idem(s.skip(2), StripMode::Line);
                    }
                } else {
                    lemma_strip_from_idem(s.skip(1), StripMode::Code);
                    let x = strip_from(s.skip(1), StripMode::Code);
                    assert((seq![c] + x).skip(1) =~= x);
                    if c == DASH && s.len() >= 2 {
                        // The byte after a kept `-` is never another `-`:
                        // `--` would have opened a comment instead.
                        lemma_strip_first_byte(s.skip(1));
                        assert((seq![c] + x)[1] == x[0]);
                    }
                }
            },
            StripMode::Quoted { q } => {
                let c = s[0];
                if c == BACKSLASH {
                    if s.len() >= 2 {
                        lemma_strip_from_idem(s.skip(2), StripMode::Quoted { q });
                        let x = strip_from(s.skip(2), StripMode::Quoted { q });
                        assert((seq![c, s[1]] + x).skip(2) =~= x);
                        assert((seq![c, s[1]] + x)[1] == s[1]);
                    }
                } else if c == q {
                    lemma_strip_from_idem(s.skip(1), StripMode::Code);
                    let x = strip_from(s.skip(1), StripMode::Code);
                    assert((seq![c] + x).skip(1) =~= x);
                } else {
                    lemma_strip_from_idem(s.skip(1), StripMode::Quoted { q });
                    let x = strip_from(s.skip(1), StripMode::Quoted { q });
                    assert((seq![c] + x).skip(1) =~= x);
                }
            },
            StripMode::Line => {
                if s[0] == NL {
                    lemma_strip_from_idem(s.skip(1), StripMode::Code);
                    let x = strip_from(s.skip(1), StripMode::Code);
                    assert((seq![NL] + x).skip(1) =~= x);
                } else {
                    lemma_strip_from_idem(s.skip(1), StripMode::Line);
                }
            },
            StripMode::Block { level } => {
                if block_close(s, level) {
                    lemma_strip_from_idem(s.skip(level + 2), StripMode::Code);
                } else {
                    lemma_strip_from_idem(s.skip(1), StripMode::Block { level });
                }
            },
        }
    }
}

/// Comment stripping is idempotent: stripping already-stripped text changes
/// nothing.
pub proof fn lemma_strip_idempotent(s: Seq<u8>)
    ensures
        strip_comments(strip_comments(s)) == strip_comments(s),
{
    lemma_strip_from_idem(s, StripMode::Code);
}

/// Inside a string the stripper copies bytes verbatim: as long as the bytes
/// of `content` contain neither the quote `q` nor a backslash, the scan
/// stays in the string state, copies all of `content` and the closing
/// quote, and resumes in code.
proof fn lemma_quoted_copies(content: Seq<u8>, q: u8, rest: Seq<u8>)
    requires
        is_quote(q),
        forall|j: int| 0 <= j < content.len() ==> content[j] != q && content[j] != BACKSLASH,
    ensures
        strip_from(content + seq![q] + rest, StripMode::Quoted { q }) == content + seq![q]
            + strip_from(rest, StripMode::Code),
    decreases content.len(),
{
    let s = content + seq![q] + rest;
    if content.len() == 0 {
        assert(s[0] == q);
        assert(s.skip(1) =~= rest);
        assert(content + seq![q] + strip_from(rest, StripMode::Code) =~= seq![q] + strip_from(
            rest,
            StripMode::Code,
        ));
    } else {
        let c = content[0];
        assert(s[0] == c);
        assert(s.skip(1) =~= content.skip(1) + seq![q] + rest);
        lemma_quoted_copies(content.skip(1), q, rest);
        assert(seq![c] + (content.skip(1) + seq![q] + strip_from(rest, StripMode::Code)) =~= content
            + seq![q] + strip_from(rest, StripMode::Code));
    }
}

/// A whole string literal — quote, content, quote — passes through the
/// stripper verbatim when its content holds neither its own quote byte nor
/// a backslash; in particular, comment-marker-like bytes inside it are
/// kept.
pub proof fn lemma_string_literal_kept(content: Seq<u8>, q: u8, rest: Seq<u8>)
    requires
        is_quote(q),
        forall|j: int| 0 <= j < content.len() ==> content[j] != q && content[j] != BACKSLASH,
    ensures
        strip_comments(seq![q] + content + seq![q] + rest) == seq![q] + content + seq![q]
            + strip_comments(rest),
{
    let s = seq![q] + content + seq![q] + rest;
    assert(s[0] == q);
    assert(s.skip(1) =~= content + seq![q] + rest);
    lemma_quoted_copies(content, q, rest);
    assert(seq![q] + (content + seq![q] + strip_comments(rest)) =~= seq![q] + content + seq![q]
        + strip_comments(rest));
}

} // verus!
