use clojure_core::eval::load::{read_first_form, source_file_rel_path, FormReader};
use clojure_core::namespace::{create_ns_plan, dotted_name, is_dunder, CreateNs, ModuleKind, StepAction};
use clojure_core::printer::pr_str;
use clojure_core::reader::context::ReaderContext;
use clojure_core::reader::errors::ReadErrorKind;
use clojure_core::reader::form::Form;

fn table(entries: &[(&str, ModuleKind)]) -> Vec<(String, ModuleKind)> {
    entries.iter().map(|(n, k)| (n.to_string(), *k)).collect()
}

fn ctx() -> ReaderContext {
    ReaderContext { ns_name: "user".to_string(), aliases: vec![], var_homes: vec![] }
}

#[test]
fn existing_namespace_is_reused() {
    let t = table(&[("a.b", ModuleKind::Namespace)]);
    assert!(matches!(create_ns_plan("a.b", &t), CreateNs::AlreadyExists));
}

#[test]
fn prefixes_get_placeholders_or_are_reused() {
    let t = table(&[("a", ModuleKind::Other)]);
    match create_ns_plan("a.b.c", &t) {
        CreateNs::Build { replace, steps } => {
            assert!(!replace);
            let got: Vec<(String, String, StepAction)> =
                steps.into_iter().map(|s| (s.name, s.part, s.action)).collect();
            assert_eq!(
                got,
                vec![
                    ("a".to_string(), "a".to_string(), StepAction::UseExisting),
                    ("a.b".to_string(), "b".to_string(), StepAction::CreatePlaceholder),
                    ("a.b.c".to_string(), "c".to_string(), StepAction::CreateNamespace),
                ]
            );
        },
        other => panic!("unexpected {:?}", other),
    }
}

#[test]
fn placeholder_at_the_name_is_replaced() {
    let t = table(&[("x", ModuleKind::Other)]);
    match create_ns_plan("x", &t) {
        CreateNs::Build { replace, steps } => {
            assert!(replace);
            assert_eq!(steps.len(), 1);
            assert_eq!(steps[0].name, "x");
            assert_eq!(steps[0].part, "x");
            assert_eq!(steps[0].action, StepAction::CreateNamespace);
        },
        other => panic!("unexpected {:?}", other),
    }
}

#[test]
fn empty_segments_are_kept() {
    let t = table(&[]);
    match create_ns_plan("a..b", &t) {
        CreateNs::Build { steps, .. } => {
            let names: Vec<&str> = steps.iter().map(|s| s.name.as_str()).collect();
            assert_eq!(names, vec!["a", "a.", "a..b"]);
            let parts: Vec<&str> = steps.iter().map(|s| s.part.as_str()).collect();
            assert_eq!(parts, vec!["a", "", "b"]);
        },
        other => panic!("unexpected {:?}", other),
    }
}

#[test]
fn dotted_names_and_dunders() {
    assert_eq!(dotted_name(Some("clojure"), "core"), "clojure.core");
    assert_eq!(dotted_name(None, "user"), "user");
    assert!(is_dunder("__name__"));
    assert!(is_dunder("__"));
    assert!(!is_dunder("_x_"));
    assert!(!is_dunder("__x"));
    assert!(!is_dunder("x__"));
}

#[test]
fn source_paths_are_munged() {
    assert_eq!(source_file_rel_path("my.cool-lib.core"), "my/cool_lib/core.clj");
    assert_eq!(source_file_rel_path("user"), "user.clj");
}

#[test]
fn form_reader_reads_forms_in_turn() {
    let mut r = FormReader::new("1 ; one\n :two\n\"three\" ; end\n");
    assert!(matches!(r.next_form(&ctx()), Some(Ok(Form::Int(1)))));
    assert_eq!(r.form_index, 1);
    match r.next_form(&ctx()) {
        Some(Ok(f)) => assert_eq!(pr_str(&f, None), ":two"),
        other => panic!("unexpected {:?}", other),
    }
    assert!(matches!(r.next_form(&ctx()), Some(Ok(Form::Str(_)))));
    assert_eq!(r.form_index, 3);
    assert!(r.next_form(&ctx()).is_none());
    assert!(r.next_form(&ctx()).is_none());
}

#[test]
fn form_reader_reports_errors_with_position() {
    let mut r = FormReader::new("1\n  )");
    assert!(matches!(r.next_form(&ctx()), Some(Ok(Form::Int(1)))));
    match r.next_form(&ctx()) {
        Some(Err(e)) => {
            assert!(matches!(e.kind, ReadErrorKind::UnmatchedDelimiter(')')));
            assert_eq!((e.line, e.column), (2, 3));
        },
        other => panic!("unexpected {:?}", other),
    }
    assert_eq!(r.form_index, 1);
}

#[test]
fn first_form_of_a_text() {
    assert!(read_first_form("  ; nothing\n", &ctx()).is_none());
    match read_first_form("(ns x) rest", &ctx()) {
        Some(Err(e)) => assert!(matches!(e.kind, ReadErrorKind::CollectionNotImplemented('('))),
        other => panic!("unexpected {:?}", other),
    }
    assert!(matches!(read_first_form(" 42 43", &ctx()), Some(Ok(Form::Int(42)))));
}
