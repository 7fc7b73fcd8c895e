//! The assembled pipeline: from a loaded template to the generated
//! definition — the record type's name and field set, the render plan, the
//! template text and the re-embed path — and the operations of the
//! generated type: construction and rendering.

use vstd::prelude::*;
use crate::extract::{
    Occurrence,
    OccurrenceView,
    ExtractorError,
    extract_occurrences,
    spec_occurrences,
    occs_view,
    all_valid,
    first_invalid,
    error_matches,
};
use crate::fields::{field_set, names_of, strings_view, first_seen, lemma_field_set_complete};
use crate::loader::{TemplateSource, embed_path};
use crate::render::{
    RecordInstance,
    FieldBinding,
    BindingView,
    RenderError,
    bindings_view,
    render_text,
    all_bound,
    first_unbound,
    spec_apply_plan,
    spec_lookup,
    lemma_lookup_some,
};
use crate::replace::spec_replace_all;

verus! {

/// The whole output of one generation pass: a record type named
/// `struct_name` with one string field per entry of `fields` (the unique
/// placeholder names, in first-seen order), the render plan (every
/// occurrence, in scan order, repeats included), the verbatim template
/// text, and the path under which the text is re-embedded.
#[derive(Debug, Clone)]
pub struct GeneratedDefinition {
    pub struct_name: String,
    pub fields: Vec<String>,
    pub plan: Vec<Occurrence>,
    pub template_text: String,
    pub embed_path: String,
}

/// A definition is faithful to its template: the plan is the template's
/// occurrence list, every occurrence names a legal identifier, and the
/// field set is the unique names in first-seen order.
pub open spec fn wf_definition(d: GeneratedDefinition) -> bool {
    &&& occs_view(d.plan@) == spec_occurrences(d.template_text@)
    &&& all_valid(spec_occurrences(d.template_text@))
    &&& strings_view(d.fields@) == first_seen(names_of(spec_occurrences(d.template_text@)))
}

/// Runs extraction and synthesis for a loaded template. Succeeds if and
/// only if every placeholder of the text names a legal identifier; the
/// result then carries the desired name, the deduplicated field set, the
/// full render plan, the verbatim text and the re-embed path. On a
/// malformed placeholder the extractor's report for the first offender
/// passes through unchanged.
pub fn generate_definition(struct_name: String, source: &TemplateSource) -> (r: Result<
    GeneratedDefinition,
    ExtractorError,
>)
    ensures
        r matches Ok(d) ==> ({
            &&& wf_definition(d)
            &&& d.struct_name@ == struct_name@
            &&& d.template_text@ == source.raw_text@
            &&& d.embed_path@ == spec_replace_all(source.path@, "/src"@, Seq::<char>::empty())
        }),
        r matches Err(e) ==> !all_valid(spec_occurrences(source.raw_text@)) && error_matches(
            e,
            spec_occurrences(source.raw_text@)[first_invalid(spec_occurrences(source.raw_text@))],
        ),
{
    let occs = match extract_occurrences(source.raw_text.as_str()) {
        Ok(o) => o,
        Err(e) => {
            return Err(e);
        },
    };
    let fields = field_set(&occs);
    let ep = embed_path(source.path.as_str());
    Ok(
        GeneratedDefinition {
            struct_name,
            fields,
            plan: occs,
            template_text: source.raw_text.clone(),
            embed_path: ep,
        },
    )
}

impl GeneratedDefinition {
    /// Constructs a record of this definition's type: one value per field,
    /// in field-set order, each copied into the record so that the record
    /// owns its values.
    pub fn instantiate(&self, values: &Vec<String>) -> (r: RecordInstance)
        requires
            values@.len() == self.fields@.len(),
        ensures
            r.bindings@.len() == self.fields@.len(),
            forall|d: int|
                0 <= d < self.fields@.len() ==> ((#[trigger] r.bindings@[d])@.name
                    == self.fields@[d]@ && r.bindings@[d]@.value == values@[d]@),
    {
        let n = self.fields.len();
        let mut bindings: Vec<FieldBinding> = Vec::new();
        let mut idx: usize = 0;
        while idx < n
            invariant
                idx <= n,
                n == self.fields@.len(),
                values@.len() == n,
                bindings@.len() == idx,
                forall|d: int|
                    0 <= d < idx ==> ((#[trigger] bindings@[d])@.name == self.fields@[d]@
                        && bindings@[d]@.value == values@[d]@),
            decreases n - idx,
        {
            bindings.push(
                FieldBinding { name: self.fields[idx].clone(), value: values[idx].clone() },
            );
            idx = idx + 1;
        }
        RecordInstance { bindings }
    }

    /// The render operation of the generated type: applies the plan to a
    /// fresh copy of the template text, replacing each occurrence's marker
    /// by the record's value for its field. Succeeds if and only if the
    /// record binds every field the plan names.
    pub fn render(&self, record: &RecordInstance) -> (r: Result<String, RenderError>)
        ensures
            r matches Ok(s) ==> all_bound(occs_view(self.plan@), bindings_view(record.bindings@))
                && s@ == spec_apply_plan(
                self.template_text@,
                occs_view(self.plan@),
                bindings_view(record.bindings@),
            ),
            r matches Err(e) ==> !all_bound(
                occs_view(self.plan@),
                bindings_view(record.bindings@),
            ) && (e matches RenderError::UnknownField(m) && m@ == occs_view(self.plan@)[
                first_unbound(occs_view(self.plan@), bindings_view(record.bindings@))].marker),
    {
        render_text(self.template_text.as_str(), &self.plan, record)
    }
}

/// The round trip is total for a faithful definition: a record whose
/// binding names are the definition's own field set — as `instantiate`
/// builds it — binds every occurrence of the plan, so `render` succeeds.
/// The renderer of the generated type never fails under consistent
/// construction.
pub proof fn lemma_definition_renders(d: GeneratedDefinition, record: RecordInstance)
    requires
        wf_definition(d),
        bindings_view(record.bindings@).map_values(|b: BindingView| b.name) == strings_view(
            d.fields@,
        ),
    ensures
        all_bound(occs_view(d.plan@), bindings_view(record.bindings@)),
{
    lemma_faithful_record_renders(occs_view(d.plan@), bindings_view(record.bindings@));
}

/// The round trip is total: a record whose binding names are exactly the
/// field set synthesized from the plan binds every occurrence of the plan,
/// so rendering it succeeds — the renderer of the generated type never
/// fails under consistent construction.
pub proof fn lemma_faithful_record_renders(plan: Seq<OccurrenceView>, bs: Seq<BindingView>)
    requires
        bs.map_values(|b: BindingView| b.name) == first_seen(names_of(plan)),
    ensures
        all_bound(plan, bs),
{
    lemma_field_set_complete(names_of(plan));
    let fs = first_seen(names_of(plan));
    assert forall|d: int|
        0 <= d < plan.len() implies spec_lookup(bs, #[trigger] plan[d].field_name) is Some by {
        let nm = plan[d].field_name;
        assert(names_of(plan)[d] == nm);
        assert(names_of(plan).contains(nm));
        assert(fs.contains(nm));
        let v = choose|v: int| 0 <= v < fs.len() && fs[v] == nm;
        assert(bs.map_values(|b: BindingView| b.name)[v] == nm);
        assert(bs[v].name == nm);
        lemma_lookup_some(bs, nm);
    }
}

} // verus!
