//! Undoing the escaped slashes (`\/`) found in the episode data's URLs.

use vstd::prelude::*;

use crate::text::{chars_of, contains, contains_exec, occurs_at, replace, replace_exec, starts_with, string_of};

verus! {

/// The escaped slash: a backslash followed by a slash.
pub open spec fn escaped_slash() -> Seq<char> {
    seq!['\\', '/']
}

/// One character put in front of an already unescaped rest: a backslash that the rest's
/// slash follows is dropped, any other character is kept.
pub open spec fn unescape_step(c: char, rest: Seq<char>) -> Seq<char> {
    if c == '\\' && rest.len() > 0 && rest[0] == '/' {
        rest
    } else {
        seq![c] + rest
    }
}

/// `s` with every backslash removed that stands in a run of backslashes ending right before
/// a slash: what collapsing `\/` into `/` until none remain leaves.
pub open spec fn unescape(s: Seq<char>) -> Seq<char>
    decreases s.len(),
{
    if s.len() == 0 {
        s
    } else {
        unescape_step(s[0], unescape(s.drop_first()))
    }
}

/// Unescaping a string with one character in front is the step over the unescaped rest.
proof fn lemma_unescape_cons(c: char, x: Seq<char>)
    ensures
        unescape(seq![c] + x) == unescape_step(c, unescape(x)),
{
    assert((seq![c] + x).drop_first() =~= x);
}

/// One pass of `replace("\\/", "/")` does not change what unescaping gives.
pub proof fn lemma_replace_keeps_unescape(s: Seq<char>)
    ensures
        unescape(replace(s, escaped_slash(), seq!['/'])) == unescape(s),
    decreases s.len(),
{
    let p = escaped_slash();
    let r = seq!['/'];
    if s.len() == 0 {
    } else if starts_with(s, p) {
        assert(s.subrange(0, 2) == p);
        assert(s[0] == '\\' && s[1] == '/');
        let t = s.drop_first();
        assert(t[0] == '/');
        lemma_replace_keeps_unescape(s.skip(2));
        assert(t.drop_first() =~= s.skip(2));
        // unescape(t) starts with the slash, so the backslash in front of it goes
        assert(unescape(t) == unescape_step('/', unescape(s.skip(2))));
        lemma_unescape_cons('/', replace(s.skip(2), p, r));
        assert(r + replace(s.skip(2), p, r) =~= seq!['/'] + replace(s.skip(2), p, r));
    } else {
        let t = s.drop_first();
        lemma_replace_keeps_unescape(t);
        lemma_unescape_cons(s[0], replace(t, p, r));
    }
}

/// A string without an escaped slash is left unchanged by unescaping.
pub proof fn lemma_unescape_plain(s: Seq<char>)
    requires
        !contains(s, escaped_slash()),
    ensures
        unescape(s) == s,
    decreases s.len(),
{
    if s.len() > 0 {
        let t = s.drop_first();
        assert(!contains(t, escaped_slash())) by {
            if contains(t, escaped_slash()) {
                let i = choose|i: int| occurs_at(t, escaped_slash(), i);
                assert(s.subrange(i + 1, i + 3) =~= t.subrange(i, i + 2));
                assert(occurs_at(s, escaped_slash(), i + 1));
            }
        }
        lemma_unescape_plain(t);
        if s[0] == '\\' && t.len() > 0 && t[0] == '/' {
            assert(s.subrange(0, 2) =~= escaped_slash());
            assert(occurs_at(s, escaped_slash(), 0));
        }
        assert(seq![s[0]] + t =~= s);
    }
}

/// Unescaping leaves no escaped slash behind.
pub proof fn lemma_unescape_clean(s: Seq<char>)
    ensures
        !contains(unescape(s), escaped_slash()),
    decreases s.len(),
{
    if s.len() > 0 {
        let t = s.drop_first();
        let u = unescape(t);
        lemma_unescape_clean(t);
        if !(s[0] == '\\' && u.len() > 0 && u[0] == '/') {
            let w = seq![s[0]] + u;
            assert(w == unescape(s));
            assert forall|i: int| !occurs_at(w, escaped_slash(), i) by {
                if occurs_at(w, escaped_slash(), i) {
                    if i == 0 {
                        assert(w.subrange(0, 2)[0] == w[0]);
                        assert(w.subrange(0, 2)[1] == w[1]);
                    } else {
                        assert(w.subrange(i, i + 2) =~= u.subrange(i - 1, i + 1));
                        assert(occurs_at(u, escaped_slash(), i - 1));
                    }
                }
            }
        }
    }
}

/// Unescaping twice is unescaping once.
pub proof fn lemma_unescape_idempotent(s: Seq<char>)
    ensures
        unescape(unescape(s)) == unescape(s),
{
    lemma_unescape_clean(s);
    lemma_unescape_plain(unescape(s));
}

/// A pass of `replace("\\/", "/")` never lengthens the string, and shortens it when an escaped
/// slash is present.
proof fn lemma_replace_shrinks(s: Seq<char>)
    ensures
        replace(s, escaped_slash(), seq!['/']).len() <= s.len(),
        contains(s, escaped_slash()) ==> replace(s, escaped_slash(), seq!['/']).len() < s.len(),
    decreases s.len(),
{
    let p = escaped_slash();
    if s.len() > 0 {
        if starts_with(s, p) {
            lemma_replace_shrinks(s.skip(2));
        } else {
            let t = s.drop_first();
            lemma_replace_shrinks(t);
            if contains(s, p) {
                let i = choose|i: int| occurs_at(s, p, i);
                assert(i != 0);
                assert(t.subrange(i - 1, i + 1) =~= s.subrange(i, i + 2));
                assert(occurs_at(t, p, i - 1));
            }
        }
    }
}

/// Collapses escaped slashes (`\/`) into `/`, pass after pass, until none remain.
///
/// The result is `unescape(url@)`: every backslash standing in a run of backslashes right before
/// a slash is gone, every other character stays in order.
pub fn clean_url(url: &str) -> (out: String)
    ensures
        out@ == unescape(url@),
        !contains(out@, escaped_slash()),
        !contains(url@, escaped_slash()) ==> out@ == url@,
{
    let pattern: Vec<char> = vec!['\\', '/'];
    let slash: Vec<char> = vec!['/'];
    assert(pattern@ =~= escaped_slash());
    assert(slash@ =~= seq!['/']);
    let mut out = chars_of(url);
    while contains_exec(&out, &pattern)
        invariant
            pattern@ == escaped_slash(),
            slash@ == seq!['/'],
            unescape(out@) == unescape(url@),
        decreases out@.len(),
    {
        proof {
            lemma_replace_keeps_unescape(out@);
            lemma_replace_shrinks(out@);
        }
        out = replace_exec(&out, &pattern, &slash);
    }
    proof {
        lemma_unescape_plain(out@);
        lemma_unescape_clean(url@);
        if !contains(url@, escaped_slash()) {
            lemma_unescape_plain(url@);
        }
    }
    string_of(&out)
}

} // verus!
