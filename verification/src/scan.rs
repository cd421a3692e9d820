//! The dependency scanner.
//!
//! A dependency statement names a module file to be loaded. Two textual
//! forms are recognised in comment-free text, each optionally preceded and
//! followed by a quote byte (which marks a statement embedded inside a
//! string literal, handled separately at substitution time):
//!
//! - the call form `require(<quoted path>[, <arguments>])`, optionally
//!   followed by a semicolon and by a trailing call suffix starting with
//!   `.` or `(`, which extends to the end of its line;
//! - the bare form `require <quoted path>`, optionally followed by a
//!   semicolon.
//!
//! Whitespace (newlines included) may stand between `require` and `(`,
//! after the path's closing quote, after a comma and before a semicolon or
//! suffix; the quoted path itself must not cross a line break. Backslashes
//! directly inside the path's quotes are dropped, so a statement whose
//! quotes are escaped inside an enclosing string is still recognised. The
//! extracted path and argument list are trimmed of surrounding whitespace.
//!
//! The scan walks the buffer left to right, tries the call form first and
//! the bare form second at each position, and resumes after the end of each
//! match, so overlapping spans are never reported twice. Sites are reported
//! in source order. A buffer without dependency statements yields the empty
//! sequence, not an error.

use vstd::prelude::*;
use vstd::slice::{slice_subrange, slice_to_vec};

use crate::ascii::{
    BACKSLASH, COMMA, CR, DOT, DQUOTE, FF, LPAREN, NL, RPAREN, SEMI, SPACE, SQUOTE, TAB, VTAB,
};
use crate::comments::is_quote;

verus! {

/// One discovered dependency statement, as plain byte strings: the exact
/// matched text, the module path between the path quotes, the forwarded
/// argument list (empty when absent) and the trailing call suffix (empty
/// when absent).
pub struct CallSite {
    pub matched_text: Vec<u8>,
    pub required_path: Vec<u8>,
    pub forwarded_args: Vec<u8>,
    pub call_suffix: Vec<u8>,
}

/// The mathematical value of a [`CallSite`]: its four fields as sequences.
pub ghost struct SiteSpec {
    pub matched: Seq<u8>,
    pub path: Seq<u8>,
    pub args: Seq<u8>,
    pub suffix: Seq<u8>,
}

impl View for CallSite {
    type V = SiteSpec;

    open spec fn view(&self) -> SiteSpec {
        SiteSpec {
            matched: self.matched_text@,
            path: self.required_path@,
            args: self.forwarded_args@,
            suffix: self.call_suffix@,
        }
    }
}

impl CallSite {
    /// A copy whose fields hold the same bytes.
    pub fn duplicate(&self) -> (r: CallSite)
        ensures
            r@ == self@,
    {
        let r = CallSite {
            matched_text: self.matched_text.clone(),
            required_path: self.required_path.clone(),
            forwarded_args: self.forwarded_args.clone(),
            call_suffix: self.call_suffix.clone(),
        };
        proof {
            assert(r.matched_text@ =~= self.matched_text@);
            assert(r.required_path@ =~= self.required_path@);
            assert(r.forwarded_args@ =~= self.forwarded_args@);
            assert(r.call_suffix@ =~= self.call_suffix@);
        }
        r
    }
}

/// The views of a sequence of call sites.
pub open spec fn sites_view(v: Seq<CallSite>) -> Seq<SiteSpec> {
    v.map_values(|cs: CallSite| cs@)
}

/// A whitespace byte: space, tab, line feed, vertical tab, form feed or
/// carriage return.
pub open spec fn is_space(c: u8) -> bool {
    c == SPACE || c == TAB || c == NL || c == VTAB || c == FF || c == CR
}

/// The first position at or after `i` whose byte is not whitespace, or the
/// end of the buffer.
pub open spec fn skip_ws(s: Seq<u8>, i: int) -> int
    decreases s.len() - i,
{
    if 0 <= i < s.len() && is_space(s[i]) {
        skip_ws(s, i + 1)
    } else {
        i
    }
}

/// The first position at or after `i` whose byte is not a backslash, or the
/// end of the buffer.
pub open spec fn skip_bs(s: Seq<u8>, i: int) -> int
    decreases s.len() - i,
{
    if 0 <= i < s.len() && s[i] == BACKSLASH {
        skip_bs(s, i + 1)
    } else {
        i
    }
}

/// The position of the first quote byte at or after `i`, or `None` when a
/// line break or the end of the buffer comes first.
pub open spec fn quote_end(s: Seq<u8>, i: int) -> Option<int>
    decreases s.len() - i,
{
    if !(0 <= i < s.len()) {
        None
    } else if is_quote(s[i]) {
        Some(i)
    } else if s[i] == NL {
        None
    } else {
        quote_end(s, i + 1)
    }
}

/// The position of the first `)` at or after `i`, or `None` when a line
/// break or the end of the buffer comes first.
pub open spec fn args_end(s: Seq<u8>, i: int) -> Option<int>
    decreases s.len() - i,
{
    if !(0 <= i < s.len()) {
        None
    } else if s[i] == RPAREN {
        Some(i)
    } else if s[i] == NL {
        None
    } else {
        args_end(s, i + 1)
    }
}

/// The position of the first line feed at or after `i`, or the end of the
/// buffer.
pub open spec fn line_end(s: Seq<u8>, i: int) -> int
    decreases s.len() - i,
{
    if 0 <= i < s.len() && s[i] != NL {
        line_end(s, i + 1)
    } else {
        i
    }
}

/// Shrinks `j` towards `i` over trailing whitespace in `s[i .. j]`.
pub open spec fn rtrim_ws(s: Seq<u8>, i: int, j: int) -> int
    decreases j - i,
{
    if i < j <= s.len() && is_space(s[j - 1]) {
        rtrim_ws(s, i, j - 1)
    } else {
        j
    }
}

/// Shrinks `j` towards `i` over trailing backslashes in `s[i .. j]`.
pub open spec fn rtrim_bs(s: Seq<u8>, i: int, j: int) -> int
    decreases j - i,
{
    if i < j <= s.len() && s[j - 1] == BACKSLASH {
        rtrim_bs(s, i, j - 1)
    } else {
        j
    }
}

/// Grows `i` towards `j` over leading whitespace in `s[i .. j]`.
pub open spec fn ltrim_ws(s: Seq<u8>, i: int, j: int) -> int
    decreases j - i,
{
    if 0 <= i < j && i < s.len() && is_space(s[i]) {
        ltrim_ws(s, i + 1, j)
    } else {
        i
    }
}

/// The bytes of the keyword `require`.
pub open spec fn require_kw() -> Seq<u8> {
    seq![114u8, 101u8, 113u8, 117u8, 105u8, 114u8, 101u8]
}

/// Does the keyword `require` stand at position `i` of `s`?
pub open spec fn has_require_at(s: Seq<u8>, i: int) -> bool {
    0 <= i && i + 7 <= s.len() && s.subrange(i, i + 7) == require_kw()
}

/// The module path of a statement whose quoted span is `s[a .. b]`:
/// backslashes directly before the closing quote are dropped, then
/// surrounding whitespace is trimmed.
pub open spec fn trimmed_path(s: Seq<u8>, a: int, b: int) -> Seq<u8> {
    let b1 = rtrim_bs(s, a, b);
    let a2 = ltrim_ws(s, a, b1);
    let b2 = rtrim_ws(s, a2, b1);
    s.subrange(a2, b2)
}

/// The tail of a call-form match whose `)` stands at `close`: an optional
/// semicolon, an optional call suffix running to the end of its line
/// (trailing whitespace dropped), and an optional directly adjacent
/// trailing quote. Yields the finished site and the position after it.
pub open spec fn finish_call(s: Seq<u8>, start: int, close: int, path: Seq<u8>, args: Seq<u8>) -> (
    SiteSpec,
    int,
) {
    let t = skip_ws(s, close + 1);
    let m2 = if t < s.len() && s[t] == SEMI {
        t + 1
    } else {
        close + 1
    };
    let u = skip_ws(s, m2);
    let has_suffix = u < s.len() && (s[u] == DOT || s[u] == LPAREN);
    let w = if has_suffix {
        rtrim_ws(s, u, line_end(s, u))
    } else {
        m2
    };
    let suffix = if has_suffix {
        s.subrange(u, w)
    } else {
        Seq::empty()
    };
    let end0 = if has_suffix {
        w
    } else {
        m2
    };
    let end = if end0 < s.len() && is_quote(s[end0]) {
        end0 + 1
    } else {
        end0
    };
    (SiteSpec { matched: s.subrange(start, end), path, args, suffix }, end)
}

/// A call-form match at position `i` of `s`: an optional leading quote,
/// `require`, whitespace, `(`, the quoted path, an optional `, arguments`
/// part on the same line as its `)`, then the tail of [`finish_call`].
/// `None` when no call-form statement starts at `i`.
pub open spec fn match_call_at(s: Seq<u8>, i: int) -> Option<(SiteSpec, int)> {
    let kw = if 0 <= i < s.len() && is_quote(s[i]) {
        i + 1
    } else {
        i
    };
    if !has_require_at(s, kw) {
        None
    } else {
        let j = skip_ws(s, kw + 7);
        if j < s.len() && s[j] == LPAREN {
            let j2 = skip_bs(s, j + 1);
            if j2 < s.len() && is_quote(s[j2]) {
                match quote_end(s, j2 + 1) {
                    None => None,
                    Some(pe) => {
                        let path = trimmed_path(s, j2 + 1, pe);
                        let k = skip_ws(s, pe + 1);
                        if k < s.len() && s[k] == COMMA {
                            let a0 = skip_ws(s, k + 1);
                            match args_end(s, a0) {
                                None => None,
                                Some(ce) => Some(
                                    finish_call(
                                        s,
                                        i,
                                        ce,
                                        path,
                                        s.subrange(a0, rtrim_ws(s, a0, ce)),
                                    ),
                                ),
                            }
                        } else if k < s.len() && s[k] == RPAREN {
                            Some(finish_call(s, i, k, path, Seq::empty()))
                        } else {
                            None
                        }
                    },
                }
            } else {
                None
            }
        } else {
            None
        }
    }
}

/// A bare-form match at position `i` of `s`: an optional leading quote,
/// `require`, whitespace, the quoted path, an optional semicolon after
/// whitespace, and an optional directly adjacent trailing quote. `None`
/// when no bare-form statement starts at `i`.
pub open spec fn match_bare_at(s: Seq<u8>, i: int) -> Option<(SiteSpec, int)> {
    let kw = if 0 <= i < s.len() && is_quote(s[i]) {
        i + 1
    } else {
        i
    };
    if !has_require_at(s, kw) {
        None
    } else {
        let j = skip_ws(s, kw + 7);
        let j2 = skip_bs(s, j);
        if j2 < s.len() && is_quote(s[j2]) {
            match quote_end(s, j2 + 1) {
                None => None,
                Some(pe) => {
                    let path = trimmed_path(s, j2 + 1, pe);
                    let t = skip_ws(s, pe + 1);
                    let m2 = if t < s.len() && s[t] == SEMI {
                        t + 1
                    } else {
                        pe + 1
                    };
                    let end = if m2 < s.len() && is_quote(s[m2]) {
                        m2 + 1
                    } else {
                        m2
                    };
                    Some(
                        (
                            SiteSpec {
                                matched: s.subrange(i, end),
                                path,
                                args: Seq::empty(),
                                suffix: Seq::empty(),
                            },
                            end,
                        ),
                    )
                },
            }
        } else {
            None
        }
    }
}

/// All sites found at or after position `i`, in source order: at each
/// position the call form is tried before the bare form, and the scan
/// resumes after the end of a match.
pub open spec fn scan_from(s: Seq<u8>, i: int) -> Seq<SiteSpec>
    decreases s.len() - i,
{
    if !(0 <= i < s.len()) {
        Seq::empty()
    } else {
        match match_call_at(s, i) {
            Some((site, end)) => seq![site] + scan_from(
                s,
                if i < end <= s.len() {
                    end
                } else {
                    i + 1
                },
            ),
            None => match match_bare_at(s, i) {
                Some((site, end)) => seq![site] + scan_from(
                    s,
                    if i < end <= s.len() {
                        end
                    } else {
                        i + 1
                    },
                ),
                None => scan_from(s, i + 1),
            },
        }
    }
}

/// The ordered sequence of dependency statements found in `s`.
pub open spec fn scan_spec(s: Seq<u8>) -> Seq<SiteSpec> {
    scan_from(s, 0)
}

/// Advances `i` over whitespace.
fn skip_ws_at(src: &[u8], i: usize) -> (r: usize)
    requires
        i <= src@.len(),
    ensures
        r == skip_ws(src@, i as int),
        i <= r <= src@.len(),
{
    let mut j = i;
    while j < src.len() && (src[j] == SPACE || src[j] == TAB || src[j] == NL || src[j] == VTAB
        || src[j] == FF || src[j] == CR)
        invariant
            i <= j <= src@.len(),
            skip_ws(src@, i as int) == skip_ws(src@, j as int),
        decreases src@.len() - j,
    {
        j = j + 1;
    }
    j
}

/// Advances `i` over backslashes.
fn skip_bs_at(src: &[u8], i: usize) -> (r: usize)
    requires
        i <= src@.len(),
    ensures
        r == skip_bs(src@, i as int),
        i <= r <= src@.len(),
{
    let mut j = i;
    while j < src.len() && src[j] == BACKSLASH
        invariant
            i <= j <= src@.len(),
            skip_bs(src@, i as int) == skip_bs(src@, j as int),
        decreases src@.len() - j,
    {
        j = j + 1;
    }
    j
}

/// Finds the closing quote of a path, giving up at a line break.
fn find_quote_end(src: &[u8], i: usize) -> (r: Option<usize>)
    requires
        i <= src@.len(),
    ensures
        match r {
            Some(p) => quote_end(src@, i as int) == Some(p as int) && i <= p < src@.len(),
            None => quote_end(src@, i as int) is None,
        },
{
    let mut j = i;
    while j < src.len()
        invariant
            i <= j <= src@.len(),
            quote_end(src@, i as int) == quote_end(src@, j as int),
        decreases src@.len() - j,
    {
        let c = src[j];
        if c == DQUOTE || c == SQUOTE {
            return Some(j);
        }
        if c == NL {
            return None;
        }
        j = j + 1;
    }
    None
}

/// Finds the `)` that ends an argument list, giving up at a line break.
fn find_args_end(src: &[u8], i: usize) -> (r: Option<usize>)
    requires
        i <= src@.len(),
    ensures
        match r {
            Some(p) => args_end(src@, i as int) == Some(p as int) && i <= p < src@.len(),
            None => args_end(src@, i as int) is None,
        },
{
    let mut j = i;
    while j < src.len()
        invariant
            i <= j <= src@.len(),
            args_end(src@, i as int) == args_end(src@, j as int),
        decreases src@.len() - j,
    {
        let c = src[j];
        if c == RPAREN {
            return Some(j);
        }
        if c == NL {
            return None;
        }
        j = j + 1;
    }
    None
}

/// Finds the end of the line starting at `i`.
fn find_line_end(src: &[u8], i: usize) -> (r: usize)
    requires
        i <= src@.len(),
    ensures
        r == line_end(src@, i as int),
        i <= r <= src@.len(),
{
    let mut j = i;
    while j < src.len() && src[j] != NL
        invariant
            i <= j <= src@.len(),
            line_end(src@, i as int) == line_end(src@, j as int),
        decreases src@.len() - j,
    {
        j = j + 1;
    }
    j
}

/// Shrinks `j` towards `a` over trailing whitespace.
fn rtrim_ws_at(src: &[u8], a: usize, j: usize) -> (r: usize)
    requires
        a <= j <= src@.len(),
    ensures
        r == rtrim_ws(src@, a as int, j as int),
        a <= r <= j,
{
    let mut jj = j;
    while jj > a && (src[jj - 1] == SPACE || src[jj - 1] == TAB || src[jj - 1] == NL || src[jj - 1]
        == VTAB || src[jj - 1] == FF || src[jj - 1] == CR)
        invariant
            a <= jj <= j <= src@.len(),
            rtrim_ws(src@, a as int, j as int) == rtrim_ws(src@, a as int, jj as int),
        decreases jj,
    {
        jj = jj - 1;
    }
    jj
}

/// Shrinks `j` towards `a` over trailing backslashes.
fn rtrim_bs_at(src: &[u8], a: usize, j: usize) -> (r: usize)
    requires
        a <= j <= src@.len(),
    ensures
        r == rtrim_bs(src@, a as int, j as int),
        a <= r <= j,
{
    let mut jj = j;
    while jj > a && src[jj - 1] == BACKSLASH
        invariant
            a <= jj <= j <= src@.len(),
            rtrim_bs(src@, a as int, j as int) == rtrim_bs(src@, a as int, jj as int),
        decreases jj,
    {
        jj = jj - 1;
    }
    jj
}

/// Grows `a` towards `j` over leading whitespace.
fn ltrim_ws_at(src: &[u8], a: usize, j: usize) -> (r: usize)
    requires
        a <= j <= src@.len(),
    ensures
        r == ltrim_ws(src@, a as int, j as int),
        a <= r <= j,
{
    let mut aa = a;
    while aa < j && (src[aa] == SPACE || src[aa] == TAB || src[aa] == NL || src[aa] == VTAB
        || src[aa] == FF || src[aa] == CR)
        invariant
            a <= aa <= j <= src@.len(),
            ltrim_ws(src@, a as int, j as int) == ltrim_ws(src@, aa as int, j as int),
        decreases j - aa,
    {
        aa = aa + 1;
    }
    aa
}

/// Copies `src[a .. b]` into a fresh buffer.
fn copy_range(src: &[u8], a: usize, b: usize) -> (v: Vec<u8>)
    requires
        a <= b <= src@.len(),
    ensures
        v@ == src@.subrange(a as int, b as int),
{
    slice_to_vec(slice_subrange(src, a, b))
}

/// Does the keyword `require` stand at position `kw`?
fn is_require_at(src: &[u8], kw: usize) -> (r: bool)
    ensures
        r == has_require_at(src@, kw as int),
{
    if src.len() >= 7 && kw <= src.len() - 7 {
        let r = src[kw] == 114 && src[kw + 1] == 101 && src[kw + 2] == 113 && src[kw + 3] == 117
            && src[kw + 4] == 105 && src[kw + 5] == 114 && src[kw + 6] == 101;
        proof {
            let t = src@.subrange(kw as int, kw as int + 7);
            assert(t[0] == src@[kw as int] && t[1] == src@[kw as int + 1] && t[2] == src@[kw as int
                + 2] && t[3] == src@[kw as int + 3] && t[4] == src@[kw as int + 4] && t[5]
                == src@[kw as int + 5] && t[6] == src@[kw as int + 6]);
            if r {
                assert(t =~= require_kw());
            } else {
                assert(require_kw()[0] == 114 && require_kw()[1] == 101 && require_kw()[2] == 113
                    && require_kw()[3] == 117 && require_kw()[4] == 105 && require_kw()[5] == 114
                    && require_kw()[6] == 101);
            }
        }
        r
    } else {
        false
    }
}

/// Extracts the trimmed module path from the quoted span `src[a .. b]`.
fn extract_path(src: &[u8], a: usize, b: usize) -> (v: Vec<u8>)
    requires
        a <= b <= src@.len(),
    ensures
        v@ == trimmed_path(src@, a as int, b as int),
{
    let b1 = rtrim_bs_at(src, a, b);
    let a2 = ltrim_ws_at(src, a, b1);
    let b2 = rtrim_ws_at(src, a2, b1);
    copy_range(src, a2, b2)
}

/// Completes a call-form match whose `)` stands at `close`.
fn complete_call(src: &[u8], i: usize, close: usize, path: Vec<u8>, args: Vec<u8>) -> (r: (
    CallSite,
    usize,
))
    requires
        i <= close < src@.len(),
    ensures
        ({
            let (site, end) = finish_call(src@, i as int, close as int, path@, args@);
            r.0@ == site && r.1 == end && i < r.1 <= src@.len()
        }),
{
    let n = src.len();
    let t = skip_ws_at(src, close + 1);
    let m2 = if t < n && src[t] == SEMI {
        t + 1
    } else {
        close + 1
    };
    let u = skip_ws_at(src, m2);
    let has_suffix = u < n && (src[u] == DOT || src[u] == LPAREN);
    let (suffix, end0) = if has_suffix {
        let w = rtrim_ws_at(src, u, find_line_end(src, u));
        (copy_range(src, u, w), w)
    } else {
        (Vec::new(), m2)
    };
    let end = if end0 < n && (src[end0] == DQUOTE || src[end0] == SQUOTE) {
        end0 + 1
    } else {
        end0
    };
    proof {
        assert(finish_call(src@, i as int, close as int, path@, args@).1 == end);
    }
    let site = CallSite {
        matched_text: copy_range(src, i, end),
        required_path: path,
        forwarded_args: args,
        call_suffix: suffix,
    };
    (site, end)
}

/// Tries to recognise a call-form statement at position `i`.
fn try_match_call(src: &[u8], i: usize) -> (r: Option<(CallSite, usize)>)
    requires
        i < src@.len(),
    ensures
        match r {
            Some((site, end)) => match_call_at(src@, i as int) == Some((site@, end as int)) && i
                < end <= src@.len(),
            None => match_call_at(src@, i as int) is None,
        },
{
    let n = src.len();
    let kw = if src[i] == DQUOTE || src[i] == SQUOTE {
        i + 1
    } else {
        i
    };
    if !is_require_at(src, kw) {
        return None;
    }
    let j = skip_ws_at(src, kw + 7);
    if !(j < n && src[j] == LPAREN) {
        return None;
    }
    let j2 = skip_bs_at(src, j + 1);
    if !(j2 < n && (src[j2] == DQUOTE || src[j2] == SQUOTE)) {
        return None;
    }
    let pe = match find_quote_end(src, j2 + 1) {
        None => {
            return None;
        },
        Some(pe) => pe,
    };
    let path = extract_path(src, j2 + 1, pe);
    let k = skip_ws_at(src, pe + 1);
    if k < n && src[k] == COMMA {
        let a0 = skip_ws_at(src, k + 1);
        let ce = match find_args_end(src, a0) {
            None => {
                return None;
            },
            Some(ce) => ce,
        };
        let ae = rtrim_ws_at(src, a0, ce);
        let args = copy_range(src, a0, ae);
        Some(complete_call(src, i, ce, path, args))
    } else if k < n && src[k] == RPAREN {
        Some(complete_call(src, i, k, path, Vec::new()))
    } else {
        None
    }
}

/// Tries to recognise a bare-form statement at position `i`.
fn try_match_bare(src: &[u8], i: usize) -> (r: Option<(CallSite, usize)>)
    requires
        i < src@.len(),
    ensures
        match r {
            Some((site, end)) => match_bare_at(src@, i as int) == Some((site@, end as int)) && i
                < end <= src@.len(),
            None => match_bare_at(src@, i as int) is None,
        },
{
    let n = src.len();
    let kw = if src[i] == DQUOTE || src[i] == SQUOTE {
        i + 1
    } else {
        i
    };
    if !is_require_at(src, kw) {
        return None;
    }
    let j = skip_ws_at(src, kw + 7);
    let j2 = skip_bs_at(src, j);
    if !(j2 < n && (src[j2] == DQUOTE || src[j2] == SQUOTE)) {
        return None;
    }
    let pe = match find_quote_end(src, j2 + 1) {
        None => {
            return None;
        },
        Some(pe) => pe,
    };
    let path = extract_path(src, j2 + 1, pe);
    let t = skip_ws_at(src, pe + 1);
    let m2 = if t < n && src[t] == SEMI {
        t + 1
    } else {
        pe + 1
    };
    let end = if m2 < n && (src[m2] == DQUOTE || src[m2] == SQUOTE) {
        m2 + 1
    } else {
        m2
    };
    let site = CallSite {
        matched_text: copy_range(src, i, end),
        required_path: path,
        forwarded_args: Vec::new(),
        call_suffix: Vec::new(),
    };
    Some((site, end))
}

/// Scans comment-free text for dependency statements, in source order.
pub fn scan_requires(src: &[u8]) -> (sites: Vec<CallSite>)
    ensures
        sites_view(sites@) == scan_spec(src@),
{
    let n = src.len();
    let mut sites: Vec<CallSite> = Vec::new();
    let mut i: usize = 0;
    while i < n
        invariant
            n == src@.len(),
            i <= n,
            sites_view(sites@) + scan_from(src@, i as int) == scan_spec(src@),
        decreases n - i,
    {
        let step = match try_match_call(src, i) {
            Some(hit) => Some(hit),
            None => try_match_bare(src, i),
        };
        match step {
            Some((site, end)) => {
                let ghost old_sites = sites@;
                let ghost sv = site@;
                sites.push(site);
                proof {
                    assert(sites_view(sites@) =~= sites_view(old_sites) + seq![sv]);
                }
                i = end;
            },
            None => {
                i = i + 1;
            },
        }
    }
    proof {
        assert(sites_view(sites@) =~= sites_view(sites@) + Seq::<SiteSpec>::empty());
    }
    sites
}

} // verus!
