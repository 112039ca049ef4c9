use dl_rust::cli::{choose_source, model_item, repo_items, url_items, urls_from_list, Cli, FlowError, SourceKind};
use dl_rust::config::{get_model_registry, lookup_model};
use dl_rust::hf::{auth_header, hf_files, repo_api_url, DownloadItem, HFFile};
use dl_rust::naming::{
    file_name, finish_name, generate_actual_filename, name_from_preferred, repo_id_to_safe_path,
    sanitize_filename, shorten_error, truncate_filename,
};
use dl_rust::prescan::{
    plan_transfer, prescan_warning, size_from_get, size_from_head, total_download_size, ProbeAnswer,
    SizeMap, WarningAction,
};
use dl_rust::search::{author_of, task_line, GatedStatus};
use dl_rust::text::parse_usize;
use dl_rust::updater::{find_asset, platform_arch_to_asset_name, update_decision, UpdateDecision, UpdateError};

#[test]
fn traversal_in_preferred_name_keeps_the_base_name() {
    let g = generate_actual_filename("https://x.org/f.bin", Some("../../etc/passwd"), 1);
    assert_eq!(g.name, "passwd");
    assert!(g.unsafe_preferred);
    assert!(!g.fallback);
    let abs = generate_actual_filename("https://x.org/f.bin", Some("/etc/shadow"), 1);
    assert_eq!(abs.name, "shadow");
    assert!(abs.unsafe_preferred);
}

#[test]
fn preferred_names_are_cleaned() {
    let g = generate_actual_filename("u", Some("dir/./sub//file.gguf"), 1);
    assert_eq!(g.name, "dir/sub/file.gguf");
    assert!(!g.unsafe_preferred);
    let h = generate_actual_filename("u", Some("a/../b.gguf"), 1);
    assert_eq!(h.name, "b.gguf");
    assert_eq!(name_from_preferred("../x/y"), ("y".to_string(), true));
    assert_eq!(name_from_preferred("a/b"), ("a/b".to_string(), false));
}

#[test]
fn names_come_from_the_url_path() {
    let g = generate_actual_filename("https://example.com/models/file.gguf?download=true", None, 1);
    assert_eq!(g.name, "file.gguf");
    let p = generate_actual_filename("not a url/data.txt", None, 1);
    assert_eq!(p.name, "data.txt");
}

#[test]
fn unusable_names_get_a_generated_one() {
    let g = generate_actual_filename("https://example.com/", None, 255);
    assert_eq!(g.name, "download_ff.file");
    assert!(g.fallback);
    let d = generate_actual_filename("u", Some("."), 16);
    assert_eq!(d.name, "download_10.file");
    assert_eq!(finish_name("?id=3.bin", 10), ("download_a.bin".to_string(), true));
    assert_eq!(finish_name("?id=3.verylongext", 10), ("download_a.file".to_string(), true));
    assert_eq!(finish_name("ok.bin", 10), ("ok.bin".to_string(), false));
}

#[test]
fn path_file_names() {
    let f = |s: &str| file_name(&s.chars().collect::<Vec<_>>()).map(|v| v.into_iter().collect::<String>());
    assert_eq!(f("a/b/"), Some("b".to_string()));
    assert_eq!(f("a/."), Some("a".to_string()));
    assert_eq!(f("a/.."), None);
    assert_eq!(f("/"), None);
    assert_eq!(f(""), None);
}

#[test]
fn sanitizes_and_builds_repo_dirs() {
    assert_eq!(sanitize_filename("a/b\\c:d*e?f\"g<h>i|j"), "a_b_c_d_e_f_g_h_i_j");
    assert_eq!(repo_id_to_safe_path("TheBloke/Llama-2-7B-GGUF"), "TheBloke_Llama-2-7B-GGUF");
    assert_eq!(
        repo_id_to_safe_path("https://huggingface.co/Qwen/Qwen3-4B-GGUF/tree/main"),
        "Qwen_Qwen3-4B-GGUF"
    );
    assert_eq!(repo_id_to_safe_path("single:name"), "hf_single_name");
}

#[test]
fn shortens_messages() {
    assert_eq!(shorten_error("short", 10), "short");
    assert_eq!(shorten_error("abcdefghijkl", 8), "abcde...");
    assert_eq!(shorten_error("abcdef", 2), "ab");
}

#[test]
fn truncates_file_names() {
    assert_eq!(truncate_filename("short.gguf", 30), "short.gguf");
    assert_eq!(
        truncate_filename("a-very-long-model-name-for-testing.gguf", 20),
        "...-for-testing.gguf"
    );
    assert_eq!(truncate_filename("abcdefghijklmnopqrstuvwxyz", 10), "...tuvwxyz");
}

#[test]
fn registry_lookup() {
    assert_eq!(get_model_registry().len(), 8);
    assert_eq!(
        lookup_model("qwen3-4b"),
        Some("https://huggingface.co/Qwen/Qwen3-4B-GGUF/resolve/main/Qwen3-4B-Q4_K_M.gguf?download=true")
    );
    assert_eq!(lookup_model("nope"), None);
    let (item, dir) = model_item("gemma3-27b").unwrap();
    assert_eq!(item.preferred_filename.unwrap(), "gemma-3-27b-it-Q4_0.gguf?download=true");
    assert_eq!(dir, "downloads/gemma3-27b");
    assert!(matches!(model_item("x"), Err(FlowError::UnknownModel)));
}

fn cli() -> Cli {
    Cli {
        command: None,
        urls: vec![],
        concurrency: 3,
        file: None,
        hf: None,
        model: None,
        select: false,
        token: false,
        debug: false,
    }
}

#[test]
fn exactly_one_source_is_required() {
    assert!(matches!(choose_source(&cli()), Err(FlowError::NoSource)));
    let mut c = cli();
    c.urls = vec!["http://a".to_string()];
    c.model = Some("m".to_string());
    assert!(matches!(choose_source(&c), Err(FlowError::ConflictingSources)));
    let mut d = cli();
    d.hf = Some("o/r".to_string());
    assert!(matches!(choose_source(&d), Ok(SourceKind::Repo)));
}

#[test]
fn url_lists_skip_blanks_and_comments() {
    let urls = urls_from_list("http://a\n\n  # note\n  http://b  \r\n#x\n");
    assert_eq!(urls, vec!["http://a".to_string(), "http://b".to_string()]);
    let items = url_items(vec!["http://c".to_string()], urls);
    assert_eq!(items.len(), 3);
    assert_eq!(items[0].url, "http://c");
}

#[test]
fn repository_urls_are_encoded() {
    let files = hf_files("https://huggingface.co/o/r", vec!["sub dir/a+b.gguf".to_string()]);
    assert_eq!(files[0].url, "https://huggingface.co/o/r/resolve/main/sub%20dir/a%2Bb.gguf?download=true");
    assert_eq!(repo_api_url("o/r"), "https://huggingface.co/api/models/o/r");
    let (items, dir) = repo_items("o/r", vec![HFFile { url: "u".to_string(), filename: "f".to_string() }]);
    assert_eq!(items[0].preferred_filename.as_deref(), Some("f"));
    assert_eq!(dir, "downloads/o_r");
}

#[test]
fn probe_sizes() {
    let ok = |l| Some(ProbeAnswer { success: true, content_length: l });
    assert_eq!(size_from_head(ok(Some(5))), Some(5));
    assert_eq!(size_from_head(ok(Some(0))), None);
    assert_eq!(size_from_head(None), None);
    assert_eq!(size_from_get(ok(Some(0))), Some(0));
    assert_eq!(size_from_get(Some(ProbeAnswer { success: false, content_length: Some(9) })), None);
    assert_eq!(prescan_warning(4, false), WarningAction::Print);
    assert_eq!(prescan_warning(5, true), WarningAction::AnnounceSuppression);
    assert_eq!(prescan_warning(5, false), WarningAction::Silent);
}

#[test]
fn sizes_and_totals() {
    let mut m = SizeMap::new();
    m.insert("a".to_string(), 10);
    m.insert("b".to_string(), 5);
    m.insert("a".to_string(), 7);
    let items = vec![
        DownloadItem { url: "a".to_string(), preferred_filename: None },
        DownloadItem { url: "c".to_string(), preferred_filename: None },
        DownloadItem { url: "b".to_string(), preferred_filename: Some("x/y.bin".to_string()) },
    ];
    assert_eq!(total_download_size(&items, &m), 12);
    let t = plan_transfer(&items[2], &m, 1);
    assert_eq!(t.expected, 5);
    assert_eq!(t.file_name, "x/y.bin");
    assert_eq!(plan_transfer(&items[1], &m, 1).expected, 0);
}

#[test]
fn update_decisions() {
    assert_eq!(platform_arch_to_asset_name("linux", "x86_64"), Ok("dl.linux.x64".to_string()));
    assert_eq!(platform_arch_to_asset_name("plan9", "mips"), Err(UpdateError::UnsupportedPlatform));
    assert_eq!(update_decision("0.0.0", "v1.0.0"), Ok(UpdateDecision::Development));
    assert_eq!(update_decision("1.2.0", "v1.10.0"), Ok(UpdateDecision::Newer));
    assert_eq!(update_decision("v2.0.0", "1.9.9"), Ok(UpdateDecision::UpToDate));
    assert_eq!(update_decision("1.0", "1.0.1"), Err(UpdateError::InvalidVersion));
    let names = vec!["a".to_string(), "dl.linux.x64".to_string()];
    assert_eq!(find_asset(&names, "dl.linux.x64"), Ok(1));
    assert_eq!(find_asset(&names, "z"), Err(UpdateError::NoAsset));
}

#[test]
fn search_lines() {
    assert_eq!(GatedStatus::Manual.label(), "Gated (manual)");
    assert_eq!(GatedStatus::False.label(), "");
    assert_eq!(GatedStatus::from_text("auto"), GatedStatus::Auto);
    assert_eq!(GatedStatus::from_flag(true), GatedStatus::True);
    assert_eq!(author_of(None, "org/model"), "org");
    assert_eq!(task_line(Some("text-generation"), true, GatedStatus::Auto), "text-generation (Private, Gated (auto))");
    assert_eq!(task_line(None, false, GatedStatus::False), "N/A");
}

#[test]
fn text_helpers() {
    let p = |s: &str| parse_usize(&s.chars().collect::<Vec<_>>());
    assert_eq!(p("+12"), Some(12));
    assert_eq!(p("12a"), None);
    assert_eq!(p(""), None);
    assert_eq!(p("99999999999999999999999"), None);
}

#[test]
fn total_size_saturates() {
    let mut m = SizeMap::new();
    m.insert("a".to_string(), u64::MAX / 2 + 1);
    m.insert("b".to_string(), u64::MAX / 2 + 1);
    let items = vec![
        DownloadItem { url: "a".to_string(), preferred_filename: None },
        DownloadItem { url: "b".to_string(), preferred_filename: None },
    ];
    assert_eq!(total_download_size(&items, &m), u64::MAX);
    assert_eq!(total_download_size(&Vec::new(), &m), 0);
}

#[test]
fn bearer_header_only_with_a_token() {
    assert_eq!(auth_header(""), None);
    assert_eq!(auth_header("abc"), Some("Bearer abc".to_string()));
}

#[test]
fn planned_transfers_report_their_warnings() {
    let m = SizeMap::new();
    let unsafe_item =
        DownloadItem { url: "https://x.org/f".to_string(), preferred_filename: Some("../../etc/passwd".to_string()) };
    let t = plan_transfer(&unsafe_item, &m, 1);
    assert_eq!(t.file_name, "passwd");
    assert!(t.unsafe_preferred);
    assert!(!t.fallback);
    let bare = DownloadItem { url: "https://x.org/dir/".to_string(), preferred_filename: None };
    let u = plan_transfer(&bare, &m, 17);
    assert_eq!(u.file_name, "dir");
    let root = DownloadItem { url: "https://x.org/".to_string(), preferred_filename: None };
    let v = plan_transfer(&root, &m, 17);
    assert_eq!(v.file_name, "download_11.file");
    assert!(v.fallback);
    assert!(!v.unsafe_preferred);
}
