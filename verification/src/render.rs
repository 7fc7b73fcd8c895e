//! Rendering: applying a render plan — the full, non-deduplicated
//! occurrence list — to a copy of the template text. Each occurrence, in
//! scan order, has every occurrence of its marker replaced by the value of
//! its field; repeated markers are resolved the first time their name comes
//! up, and later entries for the same marker rewrite nothing further.

use vstd::prelude::*;
use crate::extract::{Occurrence, OccurrenceView, occs_view};
use crate::replace::{spec_replace_all, replace_all};

verus! {

/// One field of an instantiated record: a name and the value it holds.
#[derive(Debug, Clone, PartialEq, Eq)]
pub struct FieldBinding {
    pub name: String,
    pub value: String,
}

/// The mathematical content of a field binding.
pub struct BindingView {
    pub name: Seq<char>,
    pub value: Seq<char>,
}

impl View for FieldBinding {
    type V = BindingView;

    open spec fn view(&self) -> BindingView {
        BindingView { name: self.name@, value: self.value@ }
    }
}

/// The views of a sequence of bindings.
pub open spec fn bindings_view(s: Seq<FieldBinding>) -> Seq<BindingView> {
    s.map_values(|b: FieldBinding| b@)
}

/// An instantiated record: one value per field of the generated type,
/// owned by the record itself.
#[derive(Debug, Clone)]
pub struct RecordInstance {
    pub bindings: Vec<FieldBinding>,
}

/// The value bound to `name`: the first binding of that name, if any.
pub open spec fn spec_lookup(bs: Seq<BindingView>, name: Seq<char>) -> Option<Seq<char>>
    decreases bs.len(),
{
    if bs.len() == 0 {
        None
    } else if bs[0].name == name {
        Some(bs[0].value)
    } else {
        spec_lookup(bs.skip(1), name)
    }
}

/// The text after the whole render plan has run: for each occurrence in
/// order, every occurrence of its marker is replaced by its field's value.
pub open spec fn spec_apply_plan(
    text: Seq<char>,
    plan: Seq<OccurrenceView>,
    bs: Seq<BindingView>,
) -> Seq<char>
    decreases plan.len(),
{
    if plan.len() == 0 {
        text
    } else {
        let next = match spec_lookup(bs, plan[0].field_name) {
            Some(v) => spec_replace_all(text, plan[0].marker, v),
            None => text,
        };
        spec_apply_plan(next, plan.skip(1), bs)
    }
}

/// Every occurrence of the plan is bound to a field of the record.
pub open spec fn all_bound(plan: Seq<OccurrenceView>, bs: Seq<BindingView>) -> bool {
    forall|d: int| 0 <= d < plan.len() ==> spec_lookup(bs, #[trigger] plan[d].field_name) is Some
}

/// The index of the first occurrence whose field the record does not hold.
pub open spec fn first_unbound(plan: Seq<OccurrenceView>, bs: Seq<BindingView>) -> int
    decreases plan.len(),
{
    if plan.len() == 0 {
        0
    } else if spec_lookup(bs, plan[0].field_name) is None {
        0
    } else {
        1 + first_unbound(plan.skip(1), bs)
    }
}

/// If the occurrences before `k` are bound and the one at `k` is not, then
/// `k` is the first unbound occurrence.
pub proof fn lemma_first_unbound_at(plan: Seq<OccurrenceView>, bs: Seq<BindingView>, k: int)
    requires
        0 <= k < plan.len(),
        forall|d: int| 0 <= d < k ==> spec_lookup(bs, #[trigger] plan[d].field_name) is Some,
        spec_lookup(bs, plan[k].field_name) is None,
    ensures
        !all_bound(plan, bs),
        first_unbound(plan, bs) == k,
    decreases k,
{
    if k > 0 {
        lemma_first_unbound_at(plan.skip(1), bs, k - 1);
    }
}

/// A record that holds a binding of a name binds that name: some lookup
/// value exists.
pub proof fn lemma_lookup_some(bs: Seq<BindingView>, nm: Seq<char>)
    requires
        exists|d: int| 0 <= d < bs.len() && (#[trigger] bs[d]).name == nm,
    ensures
        spec_lookup(bs, nm) is Some,
    decreases bs.len(),
{
    if bs[0].name != nm {
        let d = choose|d: int| 0 <= d < bs.len() && (#[trigger] bs[d]).name == nm;
        assert(bs.skip(1)[d - 1].name == nm);
        lemma_lookup_some(bs.skip(1), nm);
    }
}

/// A render plan cannot fail on a record built from its own occurrence
/// list; the failure is kept as a contract all the same: a marker whose
/// field the record does not hold is reported, never skipped in silence.
#[derive(Debug, Clone, PartialEq, Eq)]
pub enum RenderError {
    /// Carries the marker whose field name the record does not hold.
    UnknownField(String),
}

/// An empty render plan leaves the text untouched: a template with no
/// placeholders renders to its own text, unchanged.
pub proof fn lemma_render_empty_plan(text: Seq<char>, bs: Seq<BindingView>)
    ensures
        spec_apply_plan(text, Seq::<OccurrenceView>::empty(), bs) == text,
{
}

/// Looks up the value bound to `name` in the record.
fn lookup_value(record: &RecordInstance, name: &String) -> (r: Option<String>)
    ensures
        match r {
            Some(v) => spec_lookup(bindings_view(record.bindings@), name@) == Some(v@),
            None => spec_lookup(bindings_view(record.bindings@), name@) is None,
        },
{
    let ghost bs = bindings_view(record.bindings@);
    let n = record.bindings.len();
    let mut idx: usize = 0;
    proof {
        assert(bs.skip(0) =~= bs);
    }
    while idx < n
        invariant
            idx <= n,
            n == record.bindings@.len(),
            bs == bindings_view(record.bindings@),
            spec_lookup(bs, name@) == spec_lookup(bs.skip(idx as int), name@),
        decreases n - idx,
    {
        proof {
            assert(bs.skip(idx as int)[0] == bs[idx as int]);
            assert(bs.skip(idx as int).skip(1) =~= bs.skip(idx as int + 1));
        }
        if record.bindings[idx].name.eq(name) {
            return Some(record.bindings[idx].value.clone());
        }
        idx = idx + 1;
    }
    proof {
        assert(bs.skip(n as int) =~= Seq::<BindingView>::empty());
    }
    None
}

/// Applies the render plan to a fresh copy of `text`, replacing each
/// occurrence's marker, in scan order, by the value of its field. Succeeds
/// if and only if the record binds every field the plan names; otherwise
/// the first occurrence with no binding is reported with its marker.
pub fn render_text(text: &str, plan: &Vec<Occurrence>, record: &RecordInstance) -> (r: Result<
    String,
    RenderError,
>)
    ensures
        r matches Ok(s) ==> all_bound(occs_view(plan@), bindings_view(record.bindings@)) && s@
            == spec_apply_plan(text@, occs_view(plan@), bindings_view(record.bindings@)),
        r matches Err(e) ==> !all_bound(occs_view(plan@), bindings_view(record.bindings@)) && (
        e matches RenderError::UnknownField(m) && m@ == occs_view(plan@)[first_unbound(
            occs_view(plan@),
            bindings_view(record.bindings@),
        )].marker),
{
    let ghost pv = occs_view(plan@);
    let ghost bs = bindings_view(record.bindings@);
    let n = plan.len();
    let mut current: String = text.to_owned();
    let mut idx: usize = 0;
    proof {
        assert(pv.skip(0) =~= pv);
    }
    while idx < n
        invariant
            idx <= n,
            n == plan@.len(),
            pv == occs_view(plan@),
            bs == bindings_view(record.bindings@),
            forall|d: int| 0 <= d < idx ==> spec_lookup(bs, #[trigger] pv[d].field_name) is Some,
            spec_apply_plan(text@, pv, bs) == spec_apply_plan(current@, pv.skip(idx as int), bs),
        decreases n - idx,
    {
        proof {
            assert(pv.skip(idx as int)[0] == pv[idx as int]);
            assert(pv.skip(idx as int).skip(1) =~= pv.skip(idx as int + 1));
        }
        match lookup_value(record, &plan[idx].field_name) {
            None => {
                proof {
                    lemma_first_unbound_at(pv, bs, idx as int);
                }
                return Err(RenderError::UnknownField(plan[idx].marker.clone()));
            },
            Some(v) => {
                current = replace_all(current.as_str(), plan[idx].marker.as_str(), v.as_str());
                idx = idx + 1;
            },
        }
    }
    proof {
        assert(pv.skip(n as int) =~= Seq::<OccurrenceView>::empty());
    }
    Ok(current)
}

} // verus!
