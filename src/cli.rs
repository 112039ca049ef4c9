//! The command line as plain values, and the choice of what to download.

use vstd::prelude::*;
use crate::config::{lookup_model, registered_url};
use crate::hf::{DownloadItem, HFFile};
use crate::naming::{
    file_name, file_name_of, repo_id_to_safe_path, safe_repo_dir, sanitize_filename, sanitized,
};
use crate::text::{
    char_views, push_str, split_chars, split_on, string_of, to_chars, trim_chars, trim_spec,
};

verus! {

/// The parsed command line.
pub struct Cli {
    pub command: Option<Commands>,
    /// Direct URLs to download.
    pub urls: Vec<String>,
    /// How many transfers may run at once.
    pub concurrency: usize,
    /// A file listing URLs, one per line.
    pub file: Option<String>,
    /// A repository id or URL.
    pub hf: Option<String>,
    /// A registered model alias.
    pub model: Option<String>,
    /// Choose files of the repository interactively.
    pub select: bool,
    /// Send the access token from the environment.
    pub token: bool,
    /// Write a debug log.
    pub debug: bool,
}

pub enum Commands {
    /// Work with models of the repository site.
    Model { command: ModelCommands },
    /// Check for and apply an update of the program.
    UpdateApp,
}

pub enum ModelCommands {
    /// Search models.
    Search { query: Vec<String> },
}

/// Where the items of a batch come from.
#[derive(Debug, PartialEq, Eq)]
pub enum SourceKind {
    Model,
    Repo,
    Urls,
}

/// Why a batch cannot start.
#[derive(Debug, PartialEq, Eq)]
pub enum FlowError {
    /// No URL, list, repository or alias was given.
    NoSource,
    /// More than one of them was given.
    ConflictingSources,
    /// The alias is not registered.
    UnknownModel,
}

/// How many kinds of source the command line names.
pub open spec fn modes_set(cli: Cli) -> nat {
    (if cli.file is Some { 1nat } else { 0nat }) + (if cli.hf is Some { 1nat } else { 0nat }) + (
    if cli.model is Some { 1nat } else { 0nat }) + (if cli.urls@.len() > 0 { 1nat } else { 0nat })
}

/// Checks that exactly one source is given, and tells which.
pub fn choose_source(cli: &Cli) -> (r: Result<SourceKind, FlowError>)
    ensures
        modes_set(*cli) == 0 ==> r == Err::<SourceKind, FlowError>(FlowError::NoSource),
        modes_set(*cli) > 1 ==> r == Err::<SourceKind, FlowError>(FlowError::ConflictingSources),
        modes_set(*cli) == 1 ==> r == Ok::<SourceKind, FlowError>(
            if cli.model is Some {
                SourceKind::Model
            } else if cli.hf is Some {
                SourceKind::Repo
            } else {
                SourceKind::Urls
            },
        ),
{
    let mut modes: usize = 0;
    if cli.file.is_some() {
        modes = modes + 1;
    }
    if cli.hf.is_some() {
        modes = modes + 1;
    }
    if cli.model.is_some() {
        modes = modes + 1;
    }
    if cli.urls.len() > 0 {
        modes = modes + 1;
    }
    if modes == 0 {
        return Err(FlowError::NoSource);
    }
    if modes > 1 {
        return Err(FlowError::ConflictingSources);
    }
    if cli.model.is_some() {
        Ok(SourceKind::Model)
    } else if cli.hf.is_some() {
        Ok(SourceKind::Repo)
    } else {
        Ok(SourceKind::Urls)
    }
}

/// The lines of a URL list that hold a URL: trimmed, neither empty nor a
/// `#` comment.
pub open spec fn listed_urls(content: Seq<char>) -> Seq<Seq<char>> {
    split_on(content, '\n').map_values(|l: Seq<char>| trim_spec(l)).filter(
        |t: Seq<char>| t.len() > 0 && t[0] != '#',
    )
}

/// Reads the URLs of a list file's content.
pub fn urls_from_list(content: &str) -> (r: Vec<String>)
    ensures
        r@.map_values(|s: String| s@) == listed_urls(content@),
{
    let cv = to_chars(content);
    let lines = split_chars(cv.as_slice(), '\n');
    let ghost trimmed = split_on(content@, '\n').map_values(|l: Seq<char>| trim_spec(l));
    let ghost keep = |t: Seq<char>| t.len() > 0 && t[0] != '#';
    let mut r: Vec<String> = Vec::new();
    let mut i: usize = 0;
    while i < lines.len()
        invariant
            i <= lines@.len(),
            char_views(lines@) == split_on(content@, '\n'),
            trimmed == split_on(content@, '\n').map_values(|l: Seq<char>| trim_spec(l)),
            keep == (|t: Seq<char>| t.len() > 0 && t[0] != '#'),
            r@.map_values(|s: String| s@) == trimmed.subrange(0, i as int).filter(keep),
        decreases lines@.len() - i,
    {
        let t = trim_chars(lines[i].as_slice());
        let ghost pre = trimmed.subrange(0, i as int);
        let ghost next = trimmed.subrange(0, i + 1);
        assert(next.drop_last() =~= pre);
        assert(next.last() == t@);
        reveal(Seq::filter);
        let ghost before = r@;
        if t.len() > 0 && t[0] != '#' {
            r.push(string_of(t.as_slice()));
            assert(r@.map_values(|s: String| s@) =~= before.map_values(|s: String| s@).push(t@));
        }
        i = i + 1;
    }
    assert(trimmed.subrange(0, i as int) =~= trimmed);
    r
}

/// `downloads/` and a directory name.
pub open spec fn under_downloads(name: Seq<char>) -> Seq<char> {
    "downloads/"@ + name
}

/// The item for a registered alias: its URL, stored under the URL's last
/// component (`download.file` when there is none), in `downloads/<alias>`.
pub fn model_item(alias: &str) -> (r: Result<(DownloadItem, String), FlowError>)
    ensures
        r is Err <==> registered_url(alias@) is None,
        r matches Err(e) ==> e == FlowError::UnknownModel,
        r matches Ok(p) ==> ({
            let (item, dir) = p;
            &&& exists|k: int|
                0 <= k < crate::config::registry().len() && (#[trigger] crate::config::registry()[k]).0
                    == alias@ && crate::config::registry()[k].1 == item.url@
            &&& item.preferred_filename matches Some(n) && n@ == match file_name_of(item.url@) {
                Some(f) => f,
                None => "download.file"@,
            }
            &&& dir@ == under_downloads(sanitized(alias@))
        }),
{
    match lookup_model(alias) {
        Some(url) => {
            let uv = to_chars(url);
            let name = match file_name(uv.as_slice()) {
                Some(n) => string_of(n.as_slice()),
                None => string_of(to_chars("download.file").as_slice()),
            };
            let mut dir = String::new();
            push_str(&mut dir, "downloads/");
            let s = sanitize_filename(alias);
            push_str(&mut dir, s.as_str());
            Ok((DownloadItem { url: string_of(uv.as_slice()), preferred_filename: Some(name) }, dir))
        },
        None => Err(FlowError::UnknownModel),
    }
}

/// The items for files of a repository: each stored under its path in the
/// repository, in `downloads/<owner>_<name>`.
pub fn repo_items(repo_id: &str, files: Vec<HFFile>) -> (r: (Vec<DownloadItem>, String))
    ensures
        r.0@.len() == files@.len(),
        forall|k: int|
            0 <= k < files@.len() ==> (#[trigger] r.0@[k]).url == files@[k].url
                && r.0@[k].preferred_filename == Some(files@[k].filename),
        r.1@ == under_downloads(safe_repo_dir(repo_id@)),
{
    let ghost orig = files@;
    let mut files = files;
    let mut items: Vec<DownloadItem> = Vec::new();
    while files.len() > 0
        invariant
            items@.len() + files@.len() == orig.len(),
            files@ == orig.subrange(items@.len() as int, orig.len() as int),
            forall|k: int|
                0 <= k < items@.len() ==> (#[trigger] items@[k]).url == orig[k].url
                    && items@[k].preferred_filename == Some(orig[k].filename),
        decreases files@.len(),
    {
        let f = files.remove(0);
        items.push(DownloadItem { url: f.url, preferred_filename: Some(f.filename) });
        assert(files@ =~= orig.subrange(items@.len() as int, orig.len() as int));
    }
    let mut dir = String::new();
    push_str(&mut dir, "downloads/");
    let s = repo_id_to_safe_path(repo_id);
    push_str(&mut dir, s.as_str());
    (items, dir)
}

/// The items for direct URLs, then the URLs of a list, stored under names
/// taken from the URLs, in `downloads`.
pub fn url_items(urls: Vec<String>, listed: Vec<String>) -> (r: Vec<DownloadItem>)
    ensures
        r@.len() == urls@.len() + listed@.len(),
        forall|k: int|
            0 <= k < urls@.len() ==> (#[trigger] r@[k]).url == urls@[k] && r@[k].preferred_filename
                is None,
        forall|k: int|
            0 <= k < listed@.len() ==> (#[trigger] r@[urls@.len() + k]).url == listed@[k]
                && r@[urls@.len() + k].preferred_filename is None,
{
    let ghost ou = urls@;
    let ghost ol = listed@;
    let mut urls = urls;
    let mut listed = listed;
    let mut r: Vec<DownloadItem> = Vec::new();
    while urls.len() > 0
        invariant
            r@.len() + urls@.len() == ou.len(),
            urls@ == ou.subrange(r@.len() as int, ou.len() as int),
            forall|k: int|
                0 <= k < r@.len() ==> (#[trigger] r@[k]).url == ou[k] && r@[k].preferred_filename is None,
        decreases urls@.len(),
    {
        let u = urls.remove(0);
        r.push(DownloadItem { url: u, preferred_filename: None });
        assert(urls@ =~= ou.subrange(r@.len() as int, ou.len() as int));
    }
    while listed.len() > 0
        invariant
            r@.len() >= ou.len(),
            r@.len() - ou.len() + listed@.len() == ol.len(),
            listed@ == ol.subrange(r@.len() - ou.len(), ol.len() as int),
            forall|k: int|
                0 <= k < ou.len() ==> (#[trigger] r@[k]).url == ou[k] && r@[k].preferred_filename is None,
            forall|k: int|
                0 <= k < r@.len() - ou.len() ==> (#[trigger] r@[ou.len() + k]).url == ol[k]
                    && r@[ou.len() + k].preferred_filename is None,
        decreases listed@.len(),
    {
        let u = listed.remove(0);
        r.push(DownloadItem { url: u, preferred_filename: None });
        assert(listed@ =~= ol.subrange(r@.len() - ou.len(), ol.len() as int));
    }
    r
}

} // verus!
