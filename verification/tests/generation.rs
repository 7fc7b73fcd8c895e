//! End-to-end tests of the generation pipeline: validation, loading,
//! extraction, field-set synthesis and rendering.

use template2struct::args::{validate_args, ArgLiteral, InvocationError};
use template2struct::extract::{extract_occurrences, ExtractorError};
use template2struct::loader::{compose_template_path, embed_path, load_template, LoaderError};
use template2struct::pipeline::{generate_definition, GeneratedDefinition};
use template2struct::render::{RecordInstance, RenderError};
use template2struct::replace::replace_all;

fn text_arg(s: &str) -> ArgLiteral {
    ArgLiteral::Text(s.to_string())
}

fn generate(name: &str, path: &str, text: &str) -> GeneratedDefinition {
    let source = load_template(path.to_string(), Ok(text.to_string())).unwrap();
    generate_definition(name.to_string(), &source).unwrap()
}

fn field_names(def: &GeneratedDefinition) -> Vec<String> {
    def.fields.clone()
}

#[test]
fn rejects_zero_arguments() {
    let r = validate_args(&vec![]);
    assert_eq!(r.unwrap_err(), InvocationError::WrongArity);
}

#[test]
fn rejects_one_argument() {
    let r = validate_args(&vec![text_arg("Greeting")]);
    assert_eq!(r.unwrap_err(), InvocationError::WrongArity);
}

#[test]
fn rejects_three_arguments() {
    let r = validate_args(&vec![text_arg("Greeting"), text_arg("a.txt"), text_arg("extra")]);
    assert_eq!(r.unwrap_err(), InvocationError::WrongArity);
}

#[test]
fn rejects_non_string_first() {
    let r = validate_args(&vec![ArgLiteral::Other, text_arg("a.txt")]);
    assert_eq!(r.unwrap_err(), InvocationError::NotAStringLiteral(0));
}

#[test]
fn rejects_non_string_second() {
    let r = validate_args(&vec![text_arg("Greeting"), ArgLiteral::Other]);
    assert_eq!(r.unwrap_err(), InvocationError::NotAStringLiteral(1));
}

#[test]
fn accepts_two_string_literals() {
    let a = validate_args(&vec![text_arg("Greeting"), text_arg("a.txt")]).unwrap();
    assert_eq!(a.struct_name, "Greeting");
    assert_eq!(a.relative_path, "a.txt");
}

#[test]
fn bracketed_placeholders_render() {
    let def = generate("Greeting", "g.txt", "<$name> says <$greeting>");
    assert_eq!(field_names(&def), vec!["name".to_string(), "greeting".to_string()]);
    let record = def.instantiate(&vec!["Ada".to_string(), "hi".to_string()]);
    assert_eq!(def.render(&record).unwrap(), "Ada says hi");
}

#[test]
fn no_placeholders_renders_unchanged() {
    let def = generate("Plain", "p.txt", "nothing to fill in here.");
    assert!(def.fields.is_empty());
    assert!(def.plan.is_empty());
    let record = def.instantiate(&vec![]);
    assert_eq!(def.render(&record).unwrap(), "nothing to fill in here.");
}

#[test]
fn repeated_placeholder_dedup_and_render() {
    let def = generate("Twice", "t.txt", "$x $x");
    assert_eq!(field_names(&def), vec!["x".to_string()]);
    assert_eq!(def.plan.len(), 2);
    let record = def.instantiate(&vec!["9".to_string()]);
    assert_eq!(def.render(&record).unwrap(), "9 9");
}

#[test]
fn read_failure_names_path() {
    let r = load_template("missing.txt".to_string(), Err("no such file".to_string()));
    let LoaderError::ReadFailed { path, cause } = r.unwrap_err();
    assert_eq!(path, "missing.txt");
    assert_eq!(cause, "no such file");
}

#[test]
fn load_success_keeps_text() {
    let src = load_template("t.txt".to_string(), Ok("raw $a".to_string())).unwrap();
    assert_eq!(src.path, "t.txt");
    assert_eq!(src.raw_text, "raw $a");
}

#[test]
fn extraction_idempotent() {
    let text = "<$name> says <$greeting> $name";
    let once = extract_occurrences(text).unwrap();
    let twice = extract_occurrences(text).unwrap();
    assert_eq!(once, twice);
}

#[test]
fn field_set_first_seen_order() {
    let def = generate("Order", "o.txt", "$b $a $b $c $a");
    assert_eq!(
        field_names(&def),
        vec!["b".to_string(), "a".to_string(), "c".to_string()]
    );
    let again = generate("Order", "o.txt", "$b $a $b $c $a");
    assert_eq!(field_names(&def), field_names(&again));
}

#[test]
fn empty_placeholder_rejected() {
    let r = extract_occurrences("a $ b");
    assert_eq!(r.unwrap_err(), ExtractorError::EmptyPlaceholder("$".to_string()));
}

#[test]
fn wrapped_empty_placeholder_marker() {
    let r = extract_occurrences("<$>");
    assert_eq!(r.unwrap_err(), ExtractorError::EmptyPlaceholder("<$>".to_string()));
}

#[test]
fn invalid_identifier_rejected() {
    let r = extract_occurrences("$a.b");
    assert_eq!(r.unwrap_err(), ExtractorError::InvalidIdentifier("a.b".to_string()));
}

#[test]
fn digit_start_rejected() {
    let r = extract_occurrences("$9x");
    assert_eq!(r.unwrap_err(), ExtractorError::InvalidIdentifier("9x".to_string()));
}

#[test]
fn first_offender_reported() {
    let r = extract_occurrences("$ok then $ and $a.b");
    assert_eq!(r.unwrap_err(), ExtractorError::EmptyPlaceholder("$".to_string()));
}

#[test]
fn unknown_field_reported() {
    let def = generate("Lone", "l.txt", "$x");
    let empty = RecordInstance { bindings: vec![] };
    let r = def.render(&empty);
    assert_eq!(r.unwrap_err(), RenderError::UnknownField("$x".to_string()));
}

#[test]
fn replace_leftmost_nonoverlapping() {
    assert_eq!(replace_all("aaa", "aa", "b"), "ba");
    assert_eq!(replace_all("abcabc", "b", "xy"), "axycaxyc");
}

#[test]
fn replace_empty_pattern_unchanged() {
    assert_eq!(replace_all("abc", "", "z"), "abc");
}

#[test]
fn replacement_not_rescanned() {
    assert_eq!(replace_all("ab", "ab", "abab"), "abab");
}

#[test]
fn compose_path_inserts_source_dir() {
    assert_eq!(compose_template_path("root", "t.txt"), "root/src/t.txt");
}

#[test]
fn embed_path_strips_src_segment() {
    assert_eq!(embed_path("sub/src/t.txt"), "sub/t.txt");
    assert_eq!(embed_path("t.txt"), "t.txt");
}

#[test]
fn generated_definition_carries_embed_path() {
    let def = generate("Embed", "sub/src/t.txt", "$v");
    assert_eq!(def.embed_path, "sub/t.txt");
    assert_eq!(def.template_text, "$v");
    assert_eq!(def.struct_name, "Embed");
}

#[test]
fn quoted_placeholder_render() {
    let def = generate("Quoted", "q.txt", "say \"$word\" now");
    assert_eq!(field_names(&def), vec!["word".to_string()]);
    let record = def.instantiate(&vec!["yes".to_string()]);
    assert_eq!(def.render(&record).unwrap(), "say yes now");
}

#[test]
fn multi_sigil_marker_keeps_sigils() {
    let occs = extract_occurrences("$$x").unwrap();
    assert_eq!(occs.len(), 1);
    assert_eq!(occs[0].marker, "$$x");
    assert_eq!(occs[0].field_name, "x");
}

#[test]
fn occurrence_markers_include_wrappers() {
    let occs = extract_occurrences("<$name>! and \"$greeting\"").unwrap();
    assert_eq!(occs.len(), 2);
    assert_eq!(occs[0].marker, "<$name>");
    assert_eq!(occs[0].field_name, "name");
    assert_eq!(occs[1].marker, "\"$greeting\"");
    assert_eq!(occs[1].field_name, "greeting");
}

#[test]
fn mid_word_sigil_is_no_placeholder() {
    let occs = extract_occurrences("cost$total and $real").unwrap();
    assert_eq!(occs.len(), 1);
    assert_eq!(occs[0].field_name, "real");
}

#[test]
fn tabs_and_newlines_separate_tokens() {
    let def = generate("Lines", "l.txt", "a\t$b\n$c d");
    assert_eq!(field_names(&def), vec!["b".to_string(), "c".to_string()]);
    let record = def.instantiate(&vec!["B".to_string(), "C".to_string()]);
    assert_eq!(def.render(&record).unwrap(), "a\tB\nC d");
}

#[test]
fn doubled_wrappers_extend_marker() {
    let occs = extract_occurrences("<<$x>>").unwrap();
    assert_eq!(occs.len(), 1);
    assert_eq!(occs[0].marker, "<<$x>>");
    assert_eq!(occs[0].field_name, "x");
}

#[test]
fn unicode_text_render() {
    let def = generate("Uni", "u.txt", "α <$v> ω");
    let record = def.instantiate(&vec!["β".to_string()]);
    assert_eq!(def.render(&record).unwrap(), "α β ω");
}
