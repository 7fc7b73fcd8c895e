//! Substring replacement, the primitive that the renderer and the loader's
//! path stripping are built on: a single left-to-right scan that rewrites
//! every non-overlapping occurrence of a pattern.

use vstd::prelude::*;

verus! {

/// Leftmost, non-overlapping replacement of every occurrence of `pat` in
/// `text` by `to`: scan from the left; at a match of `pat` emit `to` and
/// continue after the match; otherwise emit the current character. An empty
/// pattern matches nothing, so it leaves the text unchanged.
pub open spec fn spec_replace_all(text: Seq<char>, pat: Seq<char>, to: Seq<char>) -> Seq<char>
    decreases text.len(),
{
    if pat.len() == 0 || text.len() < pat.len() {
        text
    } else if text.take(pat.len() as int) == pat {
        to + spec_replace_all(text.skip(pat.len() as int), pat, to)
    } else {
        seq![text[0]] + spec_replace_all(text.skip(1), pat, to)
    }
}

/// `pat` occurs in `text` starting at position `i`.
pub open spec fn occurs_at(text: Seq<char>, pat: Seq<char>, i: int) -> bool {
    0 <= i && i + pat.len() <= text.len() && text.subrange(i, i + pat.len() as int) == pat
}

/// `pat` occurs somewhere in `text`.
pub open spec fn occurs(text: Seq<char>, pat: Seq<char>) -> bool {
    exists|i: int| occurs_at(text, pat, i)
}

/// Text without the pattern is left unchanged by replacement: replacing a
/// marker that never occurs rewrites nothing, so all non-marker text passes
/// through a replacement byte-for-byte.
pub proof fn lemma_replace_all_absent(text: Seq<char>, pat: Seq<char>, to: Seq<char>)
    requires
        pat.len() > 0,
        !occurs(text, pat),
    ensures
        spec_replace_all(text, pat, to) == text,
    decreases text.len(),
{
    if text.len() < pat.len() {
    } else {
        assert(!occurs_at(text, pat, 0));
        assert(text.take(pat.len() as int) =~= text.subrange(0, pat.len() as int));
        assert forall|i: int| !occurs_at(text.skip(1), pat, i) by {
            if occurs_at(text.skip(1), pat, i) {
                assert(text.skip(1).subrange(i, i + pat.len() as int) =~= text.subrange(
                    i + 1,
                    i + 1 + pat.len() as int,
                ));
                assert(occurs_at(text, pat, i + 1));
            }
        }
        lemma_replace_all_absent(text.skip(1), pat, to);
        assert(seq![text[0]] + text.skip(1) =~= text);
    }
}

/// Whether `text` carries `pat` starting at character position `i`.
fn matches_at(text: &str, i: usize, pat: &str) -> (r: bool)
    requires
        i + pat@.len() <= text@.len(),
    ensures
        r == (text@.subrange(i as int, i + pat@.len()) == pat@),
{
    let n = text.unicode_len();
    let m = pat.unicode_len();
    let mut k: usize = 0;
    while k < m
        invariant
            k <= m,
            m == pat@.len(),
            n == text@.len(),
            i + m <= n,
            forall|d: int| 0 <= d < k ==> text@[i + d] == pat@[d],
        decreases m - k,
    {
        if text.get_char(i + k) != pat.get_char(k) {
            proof {
                assert(text@.subrange(i as int, i + pat@.len())[k as int] == text@[i + k]);
            }
            return false;
        }
        k = k + 1;
    }
    proof {
        assert(text@.subrange(i as int, i + pat@.len()) =~= pat@);
    }
    true
}

/// Replaces every occurrence of `pat` in `text` by `to`, scanning once from
/// the left, exactly as `spec_replace_all` describes.
pub fn replace_all(text: &str, pat: &str, to: &str) -> (r: String)
    ensures
        r@ == spec_replace_all(text@, pat@, to@),
{
    let n = text.unicode_len();
    let m = pat.unicode_len();
    if m == 0 {
        return text.to_owned();
    }
    let mut out = String::new();
    let mut i: usize = 0;
    proof {
        assert(text@.skip(0) =~= text@);
        assert(out@ + spec_replace_all(text@, pat@, to@) =~= spec_replace_all(text@, pat@, to@));
    }
    while i < n
        invariant
            1 <= m == pat@.len(),
            n == text@.len(),
            i <= n,
            spec_replace_all(text@, pat@, to@) == out@ + spec_replace_all(
                text@.skip(i as int),
                pat@,
                to@,
            ),
        decreases n - i,
    {
        let ghost out0 = out@;
        let ghost i0 = i as int;
        let ghost pre = text@.skip(i0);
        if m <= n - i && matches_at(text, i, pat) {
            out.append(to);
            i = i + m;
            proof {
                assert(pre.take(pat@.len() as int) =~= text@.subrange(i0, i0 + pat@.len()));
                assert(pre.skip(pat@.len() as int) =~= text@.skip(i as int));
                assert(spec_replace_all(pre, pat@, to@) == to@ + spec_replace_all(
                    text@.skip(i as int),
                    pat@,
                    to@,
                ));
                assert(out0 + spec_replace_all(pre, pat@, to@) =~= out@ + spec_replace_all(
                    text@.skip(i as int),
                    pat@,
                    to@,
                ));
            }
        } else {
            out.append(text.substring_char(i, i + 1));
            i = i + 1;
            proof {
                assert(pre[0] == text@[i0]);
                assert(pre.skip(1) =~= text@.skip(i0 + 1));
                assert(text@.subrange(i0, i0 + 1) =~= seq![text@[i0]]);
                if pre.len() >= pat@.len() {
                    assert(pre.take(pat@.len() as int) =~= text@.subrange(i0, i0 + pat@.len()));
                    assert(spec_replace_all(pre, pat@, to@) == seq![pre[0]] + spec_replace_all(
                        pre.skip(1),
                        pat@,
                        to@,
                    ));
                } else {
                    assert(spec_replace_all(pre, pat@, to@) == pre);
                    assert(spec_replace_all(pre.skip(1), pat@, to@) == pre.skip(1));
                    assert(pre =~= seq![pre[0]] + pre.skip(1));
                }
                assert(out0 + spec_replace_all(pre, pat@, to@) =~= out@ + spec_replace_all(
                    text@.skip(i as int),
                    pat@,
                    to@,
                ));
            }
        }
    }
    proof {
        assert(text@.skip(n as int) =~= Seq::<char>::empty());
        assert(spec_replace_all(text@.skip(n as int), pat@, to@) == Seq::<char>::empty());
        assert(out@ + Seq::<char>::empty() =~= out@);
    }
    out
}

} // verus!
