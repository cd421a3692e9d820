//! The substitution engine.
//!
//! Given the entry file's comment-stripped text and the flattened list of
//! discovered call sites, each dependency statement is rewritten in place:
//! the statement is replaced by an immediately-invoked anonymous function
//! whose body is the required module's raw text, whose parameter list is
//! the forwarded argument list (a variadic placeholder when absent) and
//! whose invocation arguments are that same list. A trailing call suffix
//! replaces the invocation's own terminating semicolon.
//!
//! Substitution is textual: every occurrence of the matched text in the
//! accumulating buffer is replaced, not only the one originally matched. A
//! statement that is itself a quoted string literal is first converted to a
//! long-bracket literal, and the quotes are dropped from the replacement
//! key. A matched text that spans several lines has its replacement
//! re-indented, every line prefixed by a fixed four-space unit.

use vstd::prelude::*;
use vstd::slice::slice_to_vec;

use crate::ascii::{LBRACK, NL, RBRACK, SEMI, SPACE};
use crate::comments::is_quote;
use crate::scan::{sites_view, CallSite, SiteSpec};

verus! {

/// The text left of `buf` from position `i` on after replacing every
/// occurrence of `pat` by `repl`, scanning left to right and resuming after
/// each replacement. An empty `pat` matches nowhere.
pub open spec fn replace_from(buf: Seq<u8>, pat: Seq<u8>, repl: Seq<u8>, i: int) -> Seq<u8>
    decreases buf.len() - i,
{
    if !(0 <= i < buf.len()) {
        Seq::empty()
    } else if pat.len() > 0 && i + pat.len() <= buf.len() && buf.subrange(i, i + pat.len()) == pat {
        repl + replace_from(buf, pat, repl, i + pat.len())
    } else {
        seq![buf[i]] + replace_from(buf, pat, repl, i + 1)
    }
}

/// `buf` with every occurrence of `pat` replaced by `repl`.
pub open spec fn replace_all_spec(buf: Seq<u8>, pat: Seq<u8>, repl: Seq<u8>) -> Seq<u8> {
    replace_from(buf, pat, repl, 0)
}

/// Does `pat` occur in `buf` starting at position `i`?
fn matches_at(buf: &[u8], pat: &[u8], i: usize) -> (r: bool)
    requires
        i <= buf@.len(),
    ensures
        r == (i + pat@.len() <= buf@.len() && buf@.subrange(i as int, i as int + pat@.len()) == pat@),
{
    let n = buf.len();
    if pat.len() > n - i {
        return false;
    }
    let mut j: usize = 0;
    while j < pat.len()
        invariant
            n == buf@.len(),
            i + pat@.len() <= n,
            j <= pat@.len(),
            forall|t: int| 0 <= t < j ==> buf@[i + t] == pat@[t],
        decreases pat@.len() - j,
    {
        if buf[i + j] != pat[j] {
            proof {
                assert(buf@.subrange(i as int, i as int + pat@.len())[j as int] == buf@[i + j]);
            }
            return false;
        }
        j = j + 1;
    }
    proof {
        assert(buf@.subrange(i as int, i as int + pat@.len()) =~= pat@);
    }
    true
}

/// Appends all of `s` to `out`.
pub(crate) fn append_bytes(out: &mut Vec<u8>, s: &[u8])
    ensures
        final(out)@ == old(out)@ + s@,
{
    proof {
        assert(old(out)@ + s@.subrange(0, 0) =~= old(out)@);
    }
    let mut j: usize = 0;
    while j < s.len()
        invariant
            j <= s@.len(),
            out@ == old(out)@ + s@.subrange(0, j as int),
        decreases s@.len() - j,
    {
        out.push(s[j]);
        proof {
            assert(old(out)@ + s@.subrange(0, j as int + 1) =~= (old(out)@ + s@.subrange(
                0,
                j as int,
            )).push(s@[j as int]));
        }
        j = j + 1;
    }
    proof {
        assert(s@.subrange(0, s@.len() as int) =~= s@);
    }
}

/// Replaces every occurrence of `pat` in `buf` by `repl`, scanning left to
/// right and resuming after each replacement.
pub fn replace_all(buf: &[u8], pat: &[u8], repl: &[u8]) -> (out: Vec<u8>)
    ensures
        out@ == replace_all_spec(buf@, pat@, repl@),
{
    let n = buf.len();
    let mut out: Vec<u8> = Vec::new();
    let mut i: usize = 0;
    while i < n
        invariant
            n == buf@.len(),
            i <= n,
            out@ + replace_from(buf@, pat@, repl@, i as int) == replace_all_spec(buf@, pat@, repl@),
        decreases n - i,
    {
        if pat.len() > 0 && matches_at(buf, pat, i) {
            append_bytes(&mut out, repl);
            i = i + pat.len();
        } else {
            out.push(buf[i]);
            i = i + 1;
        }
    }
    proof {
        assert(out@ =~= out@ + Seq::<u8>::empty());
    }
    out
}

/// `(function(`
pub open spec fn closure_open() -> Seq<u8> {
    seq![40u8, 102u8, 117u8, 110u8, 99u8, 116u8, 105u8, 111u8, 110u8, 40u8]
}

/// `...`, the variadic parameter placeholder
pub open spec fn variadic() -> Seq<u8> {
    seq![46u8, 46u8, 46u8]
}

/// `)`, a line feed and a tab, closing the parameter list before the body
pub open spec fn body_open() -> Seq<u8> {
    seq![41u8, 10u8, 9u8]
}

/// a line feed and `end)(`, closing the body and opening the invocation
pub open spec fn body_close() -> Seq<u8> {
    seq![10u8, 101u8, 110u8, 100u8, 41u8, 40u8]
}

/// The closure's parameter list: the forwarded arguments, or the variadic
/// placeholder when there are none.
pub open spec fn closure_params(args: Seq<u8>) -> Seq<u8> {
    if args.len() == 0 {
        variadic()
    } else {
        args
    }
}

/// The replacement for one dependency statement: an immediately-invoked
/// anonymous function whose body is the module's raw text, declared and
/// invoked with the forwarded arguments; the terminating semicolon gives
/// way to the call suffix when one was matched.
pub open spec fn wrapped_closure(module: Seq<u8>, args: Seq<u8>, suffix: Seq<u8>) -> Seq<u8> {
    closure_open() + closure_params(args) + body_open() + module + body_close() + args + seq![
        41u8,
    ] + (if suffix.len() == 0 {
        seq![SEMI]
    } else {
        suffix
    })
}

/// The four-space indentation unit.
pub open spec fn indent_unit() -> Seq<u8> {
    seq![SPACE, SPACE, SPACE, SPACE]
}

/// `t` with every line prefixed by the indentation unit (`t` must not end
/// with a line feed for this to cover its last line, and no replacement
/// does).
pub open spec fn indented(t: Seq<u8>) -> Seq<u8> {
    indent_unit() + replace_all_spec(t, seq![NL], seq![NL] + indent_unit())
}

/// Is `m` itself a quoted string literal: a quote byte at each end, at
/// least one byte between them, and no line break inside?
pub open spec fn is_string_form(m: Seq<u8>) -> bool {
    &&& m.len() >= 3
    &&& is_quote(m[0])
    &&& is_quote(m[m.len() - 1])
    &&& forall|j: int| 1 <= j < m.len() - 1 ==> m[j] != NL
}

/// `inner` wrapped in the long-bracket string delimiters `[[` and `]]`.
pub open spec fn long_bracketed(inner: Seq<u8>) -> Seq<u8> {
    seq![LBRACK, LBRACK] + inner + seq![RBRACK, RBRACK]
}

/// One substitution step: what the accumulating buffer becomes when the
/// site `site`, whose module file holds `module`, is inlined.
///
/// A statement in string form is first converted to a long-bracket literal
/// throughout the buffer, and its quotes are dropped from the replacement
/// key, so the closure lands inside the long brackets. A key spanning
/// several lines has its replacement indented. Finally every occurrence of
/// the key is replaced by the wrapped closure.
pub open spec fn apply_site(buf: Seq<u8>, site: SiteSpec, module: Seq<u8>) -> Seq<u8> {
    let in_string = is_string_form(site.matched);
    let key = if in_string {
        site.matched.subrange(1, site.matched.len() - 1)
    } else {
        site.matched
    };
    let buf1 = if in_string {
        replace_all_spec(buf, site.matched, long_bracketed(key))
    } else {
        buf
    };
    let repl0 = wrapped_closure(module, site.args, site.suffix);
    let repl = if key.contains(NL) {
        indented(repl0)
    } else {
        repl0
    };
    replace_all_spec(buf1, key, repl)
}

/// The buffer after all sites are inlined in order, `modules[k]` being the
/// raw text of the module file `sites[k]` names.
pub open spec fn subst_all(buf: Seq<u8>, sites: Seq<SiteSpec>, modules: Seq<Seq<u8>>) -> Seq<u8>
    decreases sites.len(),
{
    if sites.len() == 0 {
        buf
    } else {
        subst_all(apply_site(buf, sites[0], modules[0]), sites.skip(1), modules.skip(1))
    }
}

/// With no call sites the buffer is returned unchanged: the bundle of a
/// file without dependency statements is its comment-stripped text.
pub proof fn lemma_no_sites_no_change(buf: Seq<u8>)
    ensures
        subst_all(buf, Seq::<SiteSpec>::empty(), Seq::<Seq<u8>>::empty()) == buf,
{
}

/// Does `s` contain a line feed?
fn contains_nl(s: &[u8]) -> (r: bool)
    ensures
        r == s@.contains(NL),
{
    let mut j: usize = 0;
    while j < s.len()
        invariant
            j <= s@.len(),
            forall|t: int| 0 <= t < j ==> s@[t] != NL,
        decreases s@.len() - j,
    {
        if s[j] == NL {
            return true;
        }
        j = j + 1;
    }
    proof {
        if s@.contains(NL) {
            let t = choose|t: int| 0 <= t < s@.len() && s@[t] == NL;
            assert(false);
        }
    }
    false
}

/// Is `m` itself a quoted string literal?
fn in_string_form(m: &[u8]) -> (r: bool)
    ensures
        r == is_string_form(m@),
{
    if m.len() < 3 {
        return false;
    }
    let first = m[0];
    let last = m[m.len() - 1];
    if !(first == 34 || first == 39) || !(last == 34 || last == 39) {
        return false;
    }
    let mut j: usize = 1;
    while j < m.len() - 1
        invariant
            m@.len() >= 3,
            1 <= j <= m@.len() - 1,
            forall|t: int| 1 <= t < j ==> m@[t] != NL,
        decreases m@.len() - j,
    {
        if m[j] == NL {
            return false;
        }
        j = j + 1;
    }
    true
}

/// Builds the wrapped closure for one site.
fn build_replacement(module: &[u8], args: &[u8], suffix: &[u8]) -> (out: Vec<u8>)
    ensures
        out@ == wrapped_closure(module@, args@, suffix@),
{
    let mut out: Vec<u8> = Vec::new();
    out.push(40);
    out.push(102);
    out.push(117);
    out.push(110);
    out.push(99);
    out.push(116);
    out.push(105);
    out.push(111);
    out.push(110);
    out.push(40);
    proof {
        assert(out@ =~= closure_open());
    }
    if args.len() == 0 {
        out.push(46);
        out.push(46);
        out.push(46);
        proof {
            assert(out@ =~= closure_open() + closure_params(args@));
        }
    } else {
        append_bytes(&mut out, args);
    }
    let ghost head = out@;
    out.push(41);
    out.push(10);
    out.push(9);
    proof {
        assert(out@ =~= head + body_open());
    }
    append_bytes(&mut out, module);
    let ghost mid = out@;
    out.push(10);
    out.push(101);
    out.push(110);
    out.push(100);
    out.push(41);
    out.push(40);
    proof {
        assert(out@ =~= mid + body_close());
    }
    append_bytes(&mut out, args);
    out.push(41);
    let ghost pre_tail = out@;
    proof {
        assert(pre_tail =~= mid + body_close() + args@ + seq![41u8]);
    }
    if suffix.len() == 0 {
        out.push(SEMI);
        proof {
            assert(out@ =~= pre_tail + seq![SEMI]);
        }
    } else {
        append_bytes(&mut out, suffix);
    }
    proof {
        assert(out@ =~= wrapped_closure(module@, args@, suffix@));
    }
    out
}

/// `t` with every line prefixed by the indentation unit.
fn indent_block(t: &[u8]) -> (out: Vec<u8>)
    ensures
        out@ == indented(t@),
{
    let mut pat: Vec<u8> = Vec::new();
    pat.push(NL);
    let mut repl: Vec<u8> = Vec::new();
    repl.push(NL);
    repl.push(SPACE);
    repl.push(SPACE);
    repl.push(SPACE);
    repl.push(SPACE);
    proof {
        assert(pat@ =~= seq![NL]);
        assert(repl@ =~= seq![NL] + indent_unit());
    }
    let mut out: Vec<u8> = Vec::new();
    out.push(SPACE);
    out.push(SPACE);
    out.push(SPACE);
    out.push(SPACE);
    proof {
        assert(out@ =~= indent_unit());
    }
    let rep = replace_all(t, pat.as_slice(), repl.as_slice());
    append_bytes(&mut out, rep.as_slice());
    out
}

/// Inlines one call site into the accumulating buffer.
pub fn apply_call_site(buf: Vec<u8>, site: &CallSite, module: &[u8]) -> (out: Vec<u8>)
    ensures
        out@ == apply_site(buf@, site@, module@),
{
    let matched = site.matched_text.as_slice();
    let in_string = in_string_form(matched);
    let (buf1, key): (Vec<u8>, Vec<u8>) = if in_string {
        let inner = vstd::slice::slice_subrange(matched, 1, matched.len() - 1);
        let mut bracketed: Vec<u8> = Vec::new();
        bracketed.push(LBRACK);
        bracketed.push(LBRACK);
        append_bytes(&mut bracketed, inner);
        bracketed.push(RBRACK);
        bracketed.push(RBRACK);
        proof {
            assert(bracketed@ =~= long_bracketed(inner@));
        }
        (replace_all(buf.as_slice(), matched, bracketed.as_slice()), slice_to_vec(inner))
    } else {
        (buf, slice_to_vec(matched))
    };
    let repl0 = build_replacement(module, site.forwarded_args.as_slice(), site.call_suffix.as_slice());
    let repl: Vec<u8> = if contains_nl(key.as_slice()) {
        indent_block(repl0.as_slice())
    } else {
        repl0
    };
    replace_all(buf1.as_slice(), key.as_slice(), repl.as_slice())
}

/// Rewrites the entry file's comment-stripped text `entry`, inlining the
/// flattened call-site list in order; `modules[k]` holds the raw text of
/// the module file `sites[k]` names, as read by the caller.
pub fn replace_requires(entry: &[u8], sites: &Vec<CallSite>, modules: &Vec<Vec<u8>>) -> (out: Vec<
    u8,
>)
    requires
        sites@.len() == modules@.len(),
    ensures
        out@ == subst_all(entry@, sites_view(sites@), modules.deep_view()),
{
    let mut cur: Vec<u8> = slice_to_vec(entry);
    let mut k: usize = 0;
    proof {
        assert(sites_view(sites@).skip(0) =~= sites_view(sites@));
        assert(modules.deep_view().skip(0) =~= modules.deep_view());
    }
    while k < sites.len()
        invariant
            sites@.len() == modules@.len(),
            k <= sites@.len(),
            modules.deep_view().len() == modules@.len(),
            subst_all(cur@, sites_view(sites@).skip(k as int), modules.deep_view().skip(k as int))
                == subst_all(entry@, sites_view(sites@), modules.deep_view()),
        decreases sites@.len() - k,
    {
        let ghost sv = sites_view(sites@).skip(k as int);
        let ghost mv = modules.deep_view().skip(k as int);
        proof {
            assert(sv[0] == sites@[k as int]@);
            assert(mv[0] == modules@[k as int]@);
            assert(sv.skip(1) =~= sites_view(sites@).skip(k as int + 1));
            assert(mv.skip(1) =~= modules.deep_view().skip(k as int + 1));
        }
        cur = apply_call_site(cur, &sites[k], modules[k].as_slice());
        k = k + 1;
    }
    proof {
        assert(sites_view(sites@).skip(sites@.len() as int) =~= Seq::<SiteSpec>::empty());
        assert(modules.deep_view().skip(modules@.len() as int) =~= Seq::<Seq<u8>>::empty());
    }
    cur
}

} // verus!
