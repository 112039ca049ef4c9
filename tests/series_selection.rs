use dl_rust::hf::HFFile;
use dl_rust::series::{
    build_menu, ends_with_gguf, filter_gguf, group_by_series, parse_series_name, to_entries,
    SelectableGGUFItem,
};
use dl_rust::selection::{dedup_files, interpret_answer, interpret_choice, Selection};

fn file(name: &str) -> HFFile {
    HFFile { url: format!("https://example.com/{}", name), filename: name.to_string() }
}

fn menu_for(names: &[(&str, u64)]) -> Vec<SelectableGGUFItem> {
    let files: Vec<(HFFile, u64)> = names.iter().map(|(n, s)| (file(n), *s)).collect();
    let (groups, singles) = group_by_series(&files);
    let items = to_entries(groups, singles);
    let texts: Vec<String> = items.iter().map(|i| format!("{} B", i.size())).collect();
    build_menu(items, &texts).entries
}

#[test]
fn parses_series_names() {
    assert_eq!(
        parse_series_name("model-00001-of-00003.gguf"),
        Some(("model".to_string(), 3))
    );
    assert_eq!(parse_series_name("a-b-00002-of-00010.gguf"), Some(("a-b".to_string(), 10)));
    assert_eq!(parse_series_name("-00001-of-00002.gguf"), Some((String::new(), 2)));
    assert_eq!(parse_series_name("model-0001-of-00003.gguf"), None);
    assert_eq!(parse_series_name("model-00001-of-00003.GGUF"), None);
    assert_eq!(parse_series_name("model.gguf"), None);
    assert_eq!(parse_series_name("bad\nname-00001-of-00003.gguf"), None);
    assert_eq!(parse_series_name("model-00001-of-00000.gguf"), Some(("model".to_string(), 0)));
}

#[test]
fn non_ascii_digits_make_a_series_with_no_declared_total() {
    assert_eq!(
        parse_series_name("model-\u{661}\u{660}\u{660}\u{660}\u{660}-of-\u{663}\u{660}\u{660}\u{660}\u{660}.gguf"),
        Some(("model".to_string(), 0))
    );
    assert_eq!(parse_series_name("model-0000x-of-00003.gguf"), None);
}

#[test]
fn huge_sizes_are_held_at_the_maximum() {
    let files = vec![
        (file("big-00001-of-00002.gguf"), u64::MAX),
        (file("big-00002-of-00002.gguf"), 7),
    ];
    let (groups, singles) = group_by_series(&files);
    assert_eq!(groups.len(), 1);
    assert!(singles.is_empty());
    assert_eq!(groups[0].total_size, u64::MAX);
}

#[test]
fn two_of_three_parts_are_incomplete_and_three_complete() {
    let two = menu_for(&[("model-00001-of-00003.gguf", 10), ("model-00002-of-00003.gguf", 20)]);
    assert_eq!(two.len(), 1);
    assert!(!two[0].is_complete());
    assert_eq!(
        two[0].display_name("30 B"),
        "Series: model (2 parts, 30 B) (INCOMPLETE: 2/3 parts)"
    );
    let three = menu_for(&[
        ("model-00001-of-00003.gguf", 10),
        ("model-00002-of-00003.gguf", 20),
        ("model-00003-of-00003.gguf", 30),
    ]);
    assert_eq!(three.len(), 1);
    assert!(three[0].is_complete());
    assert_eq!(three[0].size(), 60);
    assert_eq!(three[0].display_name("60 B"), "Series: model (3 parts, 60 B)");
    assert_eq!(three[0].get_files().len(), 3);
}

#[test]
fn zero_declared_parts_is_never_complete() {
    let m = menu_for(&[("x-00001-of-00000.gguf", 1)]);
    assert!(!m[0].is_complete());
}

#[test]
fn single_files_and_series_are_sorted_by_label() {
    let m = menu_for(&[
        ("zeta.gguf", 5),
        ("alpha-00001-of-00002.gguf", 1),
        ("beta.gguf", 7),
        ("alpha-00002-of-00002.gguf", 2),
    ]);
    let labels: Vec<String> = m.iter().map(|i| i.display_name("s")).collect();
    assert_eq!(
        labels,
        vec![
            "File: beta.gguf (s)".to_string(),
            "File: zeta.gguf (s)".to_string(),
            "Series: alpha (2 parts, s)".to_string(),
        ]
    );
}

#[test]
fn gguf_filter_ignores_case() {
    let files = vec![file("a.GGUF"), file("b.bin"), file("c.gguf"), file("gguf"), file("Ä.GgUf")];
    let kept: Vec<String> = filter_gguf(files).into_iter().map(|f| f.filename).collect();
    assert_eq!(kept, vec!["a.GGUF".to_string(), "c.gguf".to_string(), "Ä.GgUf".to_string()]);
    assert!(ends_with_gguf("x.gguf"));
    assert!(!ends_with_gguf("x.GGUF"));
}

fn complete_and_incomplete() -> Vec<SelectableGGUFItem> {
    menu_for(&[
        ("full-00001-of-00003.gguf", 1),
        ("full-00002-of-00003.gguf", 1),
        ("full-00003-of-00003.gguf", 1),
        ("part-00001-of-00003.gguf", 1),
        ("part-00002-of-00003.gguf", 1),
    ])
}

fn names(files: &[HFFile]) -> Vec<String> {
    let mut v: Vec<String> = files.iter().map(|f| f.filename.clone()).collect();
    v.sort();
    v
}

#[test]
fn all_takes_only_complete_series_and_warns_for_the_rest() {
    let m = complete_and_incomplete();
    match interpret_choice("all", &m) {
        Selection::Files { files, skipped } => {
            assert_eq!(
                names(&files),
                vec![
                    "full-00001-of-00003.gguf".to_string(),
                    "full-00002-of-00003.gguf".to_string(),
                    "full-00003-of-00003.gguf".to_string(),
                ]
            );
            assert_eq!(skipped, vec![1]);
        }
        Selection::Invalid { .. } => panic!("all is valid"),
    }
}

#[test]
fn out_of_range_index_invalidates_the_line() {
    let m = menu_for(&[("only.gguf", 3)]);
    match interpret_choice("1,2", &m) {
        Selection::Invalid { token, .. } => assert_eq!(token, "2"),
        Selection::Files { .. } => panic!("2 is out of range"),
    }
    match interpret_choice("0", &m) {
        Selection::Invalid { token, .. } => assert_eq!(token, "0"),
        Selection::Files { .. } => panic!("0 is out of range"),
    }
    match interpret_choice("x", &m) {
        Selection::Invalid { token, .. } => assert_eq!(token, "x"),
        Selection::Files { .. } => panic!("x is no number"),
    }
}

#[test]
fn none_returns_nothing() {
    let m = complete_and_incomplete();
    match interpret_answer("  NONE \n", &m) {
        Selection::Files { files, skipped } => {
            assert!(files.is_empty());
            assert!(skipped.is_empty());
        }
        Selection::Invalid { .. } => panic!("none is valid"),
    }
}

#[test]
fn indices_with_spaces_empty_tokens_and_duplicates() {
    let m = complete_and_incomplete();
    match interpret_answer(" 1, ,2,1,+1 ", &m) {
        Selection::Files { files, skipped } => {
            assert_eq!(files.len(), 3);
            assert_eq!(skipped, vec![1]);
        }
        Selection::Invalid { .. } => panic!("valid line"),
    }
    match interpret_choice("", &m) {
        Selection::Files { files, .. } => assert!(files.is_empty()),
        Selection::Invalid { .. } => panic!("empty line is valid"),
    }
}

#[test]
fn dedup_keeps_the_last_of_equal_names() {
    let a1 = HFFile { url: "u1".to_string(), filename: "a".to_string() };
    let b = HFFile { url: "u2".to_string(), filename: "b".to_string() };
    let a2 = HFFile { url: "u3".to_string(), filename: "a".to_string() };
    let r = dedup_files(vec![a1, b, a2]);
    let urls: Vec<String> = r.into_iter().map(|f| f.url).collect();
    assert_eq!(urls, vec!["u2".to_string(), "u3".to_string()]);
}

#[test]
fn empty_menu_accepts_no_number() {
    let m: Vec<SelectableGGUFItem> = Vec::new();
    match interpret_choice("1", &m) {
        Selection::Invalid { token, skipped } => {
            assert_eq!(token, "1");
            assert!(skipped.is_empty());
        }
        Selection::Files { .. } => panic!("no entry to choose"),
    }
    match interpret_choice("all", &m) {
        Selection::Files { files, skipped } => {
            assert!(files.is_empty());
            assert!(skipped.is_empty());
        }
        Selection::Invalid { .. } => panic!("all is valid"),
    }
}
