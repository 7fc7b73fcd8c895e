//! Placeholder extraction: scanning the template text for sigil-prefixed
//! tokens and turning each appearance into an occurrence. The scan yields
//! every appearance in first-to-last order, repeats included; deduplication
//! is deliberately left to field-set synthesis, because the render plan
//! needs the full list.

use vstd::prelude::*;
use crate::replace::{occurs, occurs_at};
use crate::scan::{
    is_sep_char,
    is_sigil_char,
    is_valid_ident,
    token_end,
    wrap_start,
    wrap_end,
    strip_sigils,
    lemma_token_end_bounds,
    lemma_strip_sigils_skips,
    lemma_wrap_start_bounds,
    lemma_wrap_end_bounds,
    sep_char,
    scan_token_end,
    scan_wrap_start,
    scan_wrap_end,
    valid_ident,
};

verus! {

/// One appearance of a placeholder in the template text. `marker` is the
/// exact substring of the raw text that rendering will replace: the
/// sigil-prefixed token together with the wrapper characters around it.
/// `field_name` is the token with its leading sigils removed, the
/// identifier the placeholder denotes.
#[derive(Debug, Clone, PartialEq, Eq)]
pub struct Occurrence {
    pub marker: String,
    pub field_name: String,
}

/// The mathematical content of an occurrence.
pub struct OccurrenceView {
    pub marker: Seq<char>,
    pub field_name: Seq<char>,
}

impl View for Occurrence {
    type V = OccurrenceView;

    open spec fn view(&self) -> OccurrenceView {
        OccurrenceView { marker: self.marker@, field_name: self.field_name@ }
    }
}

/// The views of a sequence of occurrences.
pub open spec fn occs_view(s: Seq<Occurrence>) -> Seq<OccurrenceView> {
    s.map_values(|o: Occurrence| o@)
}

/// The occurrence that the token `[i, j)` of `t` makes: the marker extends
/// the token by the wrapper runs just around it, and the field name is the
/// token with its leading sigils removed.
pub open spec fn occ_at(t: Seq<char>, i: int, j: int) -> OccurrenceView {
    OccurrenceView {
        marker: t.subrange(wrap_start(t, i), wrap_end(t, j)),
        field_name: strip_sigils(t.subrange(i, j)),
    }
}

/// The occurrences of `t` from position `i` on: skip separators; at each
/// token that opens with the sigil, emit its occurrence.
pub open spec fn occs_from(t: Seq<char>, i: int) -> Seq<OccurrenceView>
    decreases t.len() - i,
        when 0 <= i <= t.len()
        via occs_from_dec
{
    if i >= t.len() {
        Seq::empty()
    } else if is_sep_char(t[i]) {
        occs_from(t, i + 1)
    } else {
        let j = token_end(t, i);
        if is_sigil_char(t[i]) {
            seq![occ_at(t, i, j)] + occs_from(t, j)
        } else {
            occs_from(t, j)
        }
    }
}

#[via_fn]
proof fn occs_from_dec(t: Seq<char>, i: int) {
    if 0 <= i && i < t.len() && !is_sep_char(t[i]) {
        lemma_token_end_bounds(t, i);
    }
}

/// Every placeholder occurrence of the template text, in scan order, one
/// per appearance, repeats included.
pub open spec fn spec_occurrences(t: Seq<char>) -> Seq<OccurrenceView> {
    occs_from(t, 0)
}

/// Every occurrence names a legal identifier.
pub open spec fn all_valid(occs: Seq<OccurrenceView>) -> bool {
    forall|d: int| 0 <= d < occs.len() ==> is_valid_ident(#[trigger] occs[d].field_name)
}

/// The index of the first occurrence whose name is not a legal identifier.
pub open spec fn first_invalid(occs: Seq<OccurrenceView>) -> int
    decreases occs.len(),
{
    if occs.len() == 0 {
        0
    } else if !is_valid_ident(occs[0].field_name) {
        0
    } else {
        1 + first_invalid(occs.skip(1))
    }
}

/// If the occurrences before `k` are well named and the one at `k` is not,
/// then `k` is the first invalid occurrence.
pub proof fn lemma_first_invalid_at(s: Seq<OccurrenceView>, k: int)
    requires
        0 <= k < s.len(),
        forall|d: int| 0 <= d < k ==> is_valid_ident(#[trigger] s[d].field_name),
        !is_valid_ident(s[k].field_name),
    ensures
        !all_valid(s),
        first_invalid(s) == k,
    decreases k,
{
    if k > 0 {
        lemma_first_invalid_at(s.skip(1), k - 1);
    }
}

/// Rejection of malformed template content.
#[derive(Debug, Clone, PartialEq, Eq)]
pub enum ExtractorError {
    /// A placeholder with no name: a sigil run with nothing after it.
    /// Carries the offending marker text.
    EmptyPlaceholder(String),
    /// A placeholder whose name is not a legal identifier. Carries that
    /// name.
    InvalidIdentifier(String),
}

/// The error that the ill-named occurrence `o` earns: an empty name is an
/// empty placeholder (reported with its marker), any other bad name is an
/// invalid identifier (reported with the name itself).
pub open spec fn error_matches(e: ExtractorError, o: OccurrenceView) -> bool {
    if o.field_name.len() == 0 {
        e matches ExtractorError::EmptyPlaceholder(w) && w@ == o.marker
    } else {
        e matches ExtractorError::InvalidIdentifier(nm) && nm@ == o.field_name
    }
}

/// The sigil run beginning at the token start continues through `k`.
fn sigil_continues(text: &str, k: usize, j: usize) -> (r: bool)
    requires
        k <= j <= text@.len(),
    ensures
        r == (k < j && is_sigil_char(text@[k as int])),
{
    if k < j {
        text.get_char(k) == '$'
    } else {
        false
    }
}

/// Scans the template text and returns every placeholder occurrence in
/// order of appearance, without deduplication. Succeeds if and only if
/// every placeholder names a legal identifier; otherwise reports the first
/// offender, as an empty placeholder or an invalid identifier.
pub fn extract_occurrences(text: &str) -> (r: Result<Vec<Occurrence>, ExtractorError>)
    ensures
        r matches Ok(occs) ==> all_valid(spec_occurrences(text@)) && occs_view(occs@)
            == spec_occurrences(text@),
        r matches Err(e) ==> !all_valid(spec_occurrences(text@)) && error_matches(
            e,
            spec_occurrences(text@)[first_invalid(spec_occurrences(text@))],
        ),
{
    let n = text.unicode_len();
    let mut occs: Vec<Occurrence> = Vec::new();
    let mut i: usize = 0;
    proof {
        assert(occs_view(occs@) + occs_from(text@, 0) =~= occs_from(text@, 0));
    }
    while i < n
        invariant
            i <= n,
            n == text@.len(),
            spec_occurrences(text@) == occs_view(occs@) + occs_from(text@, i as int),
            forall|d: int|
                0 <= d < occs@.len() ==> is_valid_ident(#[trigger] occs@[d]@.field_name),
        decreases n - i,
    {
        let ghost i0 = i as int;
        let ghost processed = occs_view(occs@);
        let c = text.get_char(i);
        if sep_char(c) {
            i = i + 1;
            proof {
                assert(occs_from(text@, i0) == occs_from(text@, i0 + 1));
            }
        } else {
            let j = scan_token_end(text, i);
            proof {
                lemma_token_end_bounds(text@, i0);
            }
            if c == '$' {
                let ghost o = occ_at(text@, i0, j as int);
                proof {
                    assert(occs_from(text@, i0) == seq![o] + occs_from(text@, j as int));
                }
                let mut k = i;
                while sigil_continues(text, k, j)
                    invariant
                        i <= k <= j <= text@.len(),
                        forall|d: int| i <= d < k ==> is_sigil_char(#[trigger] text@[d]),
                    decreases j - k,
                {
                    k = k + 1;
                }
                let a = scan_wrap_start(text, i);
                let b = scan_wrap_end(text, j);
                let marker_str = text.substring_char(a, b);
                proof {
                    let w = text@.subrange(i0, j as int);
                    lemma_strip_sigils_skips(w, k - i0);
                    assert(w.skip(k - i0) =~= text@.subrange(k as int, j as int));
                    assert(o.field_name == text@.subrange(k as int, j as int));
                }
                if k == j {
                    proof {
                        assert(o.field_name.len() == 0);
                        assert(spec_occurrences(text@)[processed.len() as int] == o);
                        lemma_first_invalid_at(spec_occurrences(text@), processed.len() as int);
                    }
                    return Err(ExtractorError::EmptyPlaceholder(marker_str.to_owned()));
                }
                let name_str = text.substring_char(k, j);
                if !valid_ident(name_str) {
                    proof {
                        assert(spec_occurrences(text@)[processed.len() as int] == o);
                        lemma_first_invalid_at(spec_occurrences(text@), processed.len() as int);
                    }
                    return Err(ExtractorError::InvalidIdentifier(name_str.to_owned()));
                }
                occs.push(Occurrence { marker: marker_str.to_owned(), field_name: name_str.to_owned() });
                i = j;
                proof {
                    assert(occs_view(occs@) =~= processed + seq![o]);
                    assert(processed + seq![o] + occs_from(text@, i as int) =~= processed + (
                    seq![o] + occs_from(text@, i as int)));
                }
            } else {
                i = j;
                proof {
                    assert(occs_from(text@, i0) == occs_from(text@, j as int));
                }
            }
        }
    }
    proof {
        assert(occs_from(text@, n as int) =~= Seq::<OccurrenceView>::empty());
        assert(occs_view(occs@) + occs_from(text@, n as int) =~= occs_view(occs@));
    }
    Ok(occs)
}

proof fn lemma_occs_from_markers(t: Seq<char>, i: int)
    requires
        0 <= i <= t.len(),
    ensures
        forall|d: int|
            0 <= d < occs_from(t, i).len() ==> (occurs(t, (#[trigger] occs_from(t, i)[d]).marker)
                && occs_from(t, i)[d].marker.len() > 0),
    decreases t.len() - i,
{
    if i >= t.len() {
    } else if is_sep_char(t[i]) {
        lemma_occs_from_markers(t, i + 1);
        assert(occs_from(t, i) == occs_from(t, i + 1));
        assert forall|d: int|
            0 <= d < occs_from(t, i).len() implies (occurs(
            t,
            (#[trigger] occs_from(t, i)[d]).marker,
        ) && occs_from(t, i)[d].marker.len() > 0) by {
            assert(occs_from(t, i)[d] == occs_from(t, i + 1)[d]);
        }
    } else {
        let j = token_end(t, i);
        lemma_token_end_bounds(t, i);
        lemma_occs_from_markers(t, j);
        if !is_sigil_char(t[i]) {
            assert(occs_from(t, i) == occs_from(t, j));
            assert forall|d: int|
                0 <= d < occs_from(t, i).len() implies (occurs(
                t,
                (#[trigger] occs_from(t, i)[d]).marker,
            ) && occs_from(t, i)[d].marker.len() > 0) by {
                assert(occs_from(t, i)[d] == occs_from(t, j)[d]);
            }
        }
        if is_sigil_char(t[i]) {
            let a = wrap_start(t, i);
            let b = wrap_end(t, j);
            lemma_wrap_start_bounds(t, i);
            lemma_wrap_end_bounds(t, j);
            let o = occ_at(t, i, j);
            assert(i < j);
            assert(o.marker.len() == b - a);
            assert(t.subrange(a, a + o.marker.len() as int) == o.marker);
            assert(occurs_at(t, o.marker, a));
            assert(occurs(t, o.marker));
            assert forall|d: int|
                0 <= d < occs_from(t, i).len() implies (occurs(
                t,
                (#[trigger] occs_from(t, i)[d]).marker,
            ) && occs_from(t, i)[d].marker.len() > 0) by {
                if d > 0 {
                    assert(occs_from(t, i)[d] == occs_from(t, j)[d - 1]);
                }
            }
        }
    }
}

/// Every marker of the template's occurrence list is a nonempty, exact
/// substring of the template text: what rendering replaces genuinely
/// stands in the text it was scanned from.
pub proof fn lemma_markers_occur(t: Seq<char>)
    ensures
        forall|d: int|
            0 <= d < spec_occurrences(t).len() ==> (occurs(
                t,
                (#[trigger] spec_occurrences(t)[d]).marker,
            ) && spec_occurrences(t)[d].marker.len() > 0),
{
    lemma_occs_from_markers(t, 0);
}

/// Extraction is a pure function of the template text: scanning equal texts
/// (in particular, the same text twice) yields equal ordered occurrence
/// lists.
pub proof fn lemma_extraction_deterministic(t1: Seq<char>, t2: Seq<char>)
    requires
        t1 == t2,
    ensures
        spec_occurrences(t1) == spec_occurrences(t2),
{
}

} // verus!
