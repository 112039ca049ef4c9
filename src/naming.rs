//! File names: sanitising names, shortening messages, and choosing the name
//! under which a download is stored.
//!
//! Paths are read as on Unix: `/` separates components, a leading `/` makes
//! a path absolute, `.` names the current and `..` the parent directory.

use vstd::prelude::*;
use crate::text::{
    char_views, decimal_of, hex_char, hex_of, lemma_split_on_nonempty, push_chars, push_hex, push_str,
    split_chars, split_on, string_of, sub_chars, to_chars, utf8_len, utf8_length,
};

verus! {

/// Characters that cannot stand in a file name on common systems.
pub open spec fn is_forbidden(c: char) -> bool {
    c == '/' || c == '\\' || c == ':' || c == '*' || c == '?' || c == '"' || c == '<' || c == '>'
        || c == '|'
}

pub open spec fn sanitized(s: Seq<char>) -> Seq<char> {
    s.map_values(|c: char| if is_forbidden(c) { '_' } else { c })
}

fn sanitize_chars(s: &[char]) -> (r: Vec<char>)
    ensures
        r@ == sanitized(s@),
{
    let mut r: Vec<char> = Vec::new();
    let mut i: usize = 0;
    while i < s.len()
        invariant
            i <= s@.len(),
            r@ == sanitized(s@.subrange(0, i as int)),
        decreases s@.len() - i,
    {
        let c = s[i];
        let d = if c == '/' || c == '\\' || c == ':' || c == '*' || c == '?' || c == '"' || c
            == '<' || c == '>' || c == '|' {
            '_'
        } else {
            c
        };
        r.push(d);
        i = i + 1;
        assert(r@ =~= sanitized(s@.subrange(0, i as int)));
    }
    assert(s@.subrange(0, i as int) =~= s@);
    r
}

/// Replaces every character that is unsafe in a file name by `_`.
pub fn sanitize_filename(name: &str) -> (r: String)
    ensures
        r@ == sanitized(name@),
{
    let v = to_chars(name);
    let s = sanitize_chars(v.as_slice());
    string_of(s.as_slice())
}

/// `s` without every leading repetition of `p`, as `str::trim_start_matches`
/// removes it.
pub open spec fn strip_prefix_all(s: Seq<char>, p: Seq<char>) -> Seq<char>
    decreases s.len(),
{
    if p.len() > 0 && s.len() >= p.len() && s.subrange(0, p.len() as int) == p {
        strip_prefix_all(s.skip(p.len() as int), p)
    } else {
        s
    }
}

fn starts_with_at(s: &Vec<char>, from: usize, p: &Vec<char>) -> (r: bool)
    requires
        from <= s@.len(),
    ensures
        r == (s@.len() - from >= p@.len() && s@.subrange(from as int, from + p@.len()) == p@),
{
    if s.len() - from < p.len() {
        return false;
    }
    let mut k: usize = 0;
    while k < p.len()
        invariant
            from + p.len() <= s.len(),
            k <= p@.len(),
            forall|j: int| 0 <= j < k ==> s@[from + j] == p@[j],
        decreases p@.len() - k,
    {
        if s[from + k] != p[k] {
            assert(s@.subrange(from as int, from + p@.len())[k as int] != p@[k as int]);
            return false;
        }
        k = k + 1;
    }
    assert(s@.subrange(from as int, from + p@.len()) =~= p@);
    true
}

fn strip_all(s: &Vec<char>, p: &Vec<char>) -> (r: Vec<char>)
    ensures
        r@ == strip_prefix_all(s@, p@),
{
    let mut from: usize = 0;
    assert(s@.skip(0) =~= s@);
    while p.len() > 0 && starts_with_at(s, from, p)
        invariant
            from <= s.len(),
            strip_prefix_all(s@, p@) == strip_prefix_all(s@.skip(from as int), p@),
        decreases s@.len() - from,
    {
        assert(s@.skip(from as int).subrange(0, p@.len() as int) =~= s@.subrange(
            from as int,
            from + p@.len(),
        ));
        assert(s@.skip(from as int).skip(p@.len() as int) =~= s@.skip(from + p@.len()));
        from = from + p.len();
    }
    if p.len() > 0 {
        assert(s@.skip(from as int).len() < p@.len() || !(s@.skip(from as int).subrange(
            0,
            p@.len() as int,
        ) == p@)) by {
            if s@.skip(from as int).len() >= p@.len() {
                assert(s@.skip(from as int).subrange(0, p@.len() as int) =~= s@.subrange(
                    from as int,
                    from + p@.len(),
                ));
            }
        }
    }
    let r = sub_chars(s.as_slice(), from, s.len());
    assert(r@ =~= s@.skip(from as int));
    r
}

/// A repository id or URL with the site's address removed.
pub open spec fn repo_part(repo_id: Seq<char>) -> Seq<char> {
    strip_prefix_all(
        strip_prefix_all(repo_id, "https://huggingface.co/"@),
        "http://huggingface.co/"@,
    )
}

/// The directory name for a repository: `owner_name` from its first two
/// path pieces, each sanitised, or `hf_` and the sanitised id when it has
/// no `/`.
pub open spec fn safe_repo_dir(repo_id: Seq<char>) -> Seq<char> {
    let cleaned = repo_part(repo_id);
    let parts = split_on(cleaned, '/');
    if parts.len() >= 2 {
        sanitized(parts[0]) + "_"@ + sanitized(parts[1])
    } else {
        "hf_"@ + sanitized(cleaned)
    }
}

/// Strips the site's address from a repository id.
pub fn clean_repo_id(repo_id: &str) -> (r: String)
    ensures
        r@ == repo_part(repo_id@),
{
    let v = to_chars(repo_id);
    let a = strip_all(&v, &to_chars("https://huggingface.co/"));
    let b = strip_all(&a, &to_chars("http://huggingface.co/"));
    string_of(b.as_slice())
}

/// Turns a repository id or URL into a directory name.
pub fn repo_id_to_safe_path(repo_id: &str) -> (r: String)
    ensures
        r@ == safe_repo_dir(repo_id@),
{
    let v = to_chars(repo_id);
    let a = strip_all(&v, &to_chars("https://huggingface.co/"));
    let cleaned = strip_all(&a, &to_chars("http://huggingface.co/"));
    let parts = split_chars(cleaned.as_slice(), '/');
    proof {
        lemma_split_on_nonempty(cleaned@, '/');
    }
    let mut r = String::new();
    if parts.len() >= 2 {
        let owner = sanitize_chars(parts[0].as_slice());
        let name = sanitize_chars(parts[1].as_slice());
        assert(char_views(parts@)[0] == parts@[0]@);
        assert(char_views(parts@)[1] == parts@[1]@);
        push_chars(&mut r, owner.as_slice());
        push_str(&mut r, "_");
        push_chars(&mut r, name.as_slice());
    } else {
        push_str(&mut r, "hf_");
        let s = sanitize_chars(cleaned.as_slice());
        push_chars(&mut r, s.as_slice());
    }
    assert(r@ =~= safe_repo_dir(repo_id@));
    r
}

/// An error message cut to `max_len` characters, the cut marked by `...`
/// when there is room for it.
pub open spec fn shortened(s: Seq<char>, max_len: nat) -> Seq<char> {
    if s.len() > max_len {
        if max_len <= 3 {
            s.subrange(0, max_len as int)
        } else {
            s.subrange(0, max_len - 3) + "..."@
        }
    } else {
        s
    }
}

/// Shortens an error message to at most `max_len` characters.
pub fn shorten_error(message: &str, max_len: usize) -> (r: String)
    ensures
        r@ == shortened(message@, max_len as nat),
{
    let v = to_chars(message);
    if v.len() > max_len {
        if max_len <= 3 {
            let s = sub_chars(v.as_slice(), 0, max_len);
            string_of(s.as_slice())
        } else {
            let s = sub_chars(v.as_slice(), 0, max_len - 3);
            let mut r = string_of(s.as_slice());
            push_str(&mut r, "...");
            r
        }
    } else {
        string_of(v.as_slice())
    }
}

pub open spec fn dot_dot() -> Seq<char> {
    seq!['.', '.']
}

/// A path component that names nothing: empty (from `//` or a trailing `/`)
/// or `.`.
pub open spec fn is_skipped_piece(s: Seq<char>) -> bool {
    s.len() == 0 || s == seq!['.']
}

/// The last piece of a path that names something.
pub open spec fn last_named(pieces: Seq<Seq<char>>) -> Option<int>
    decreases pieces.len(),
{
    if pieces.len() == 0 {
        None
    } else if is_skipped_piece(pieces.last()) {
        last_named(pieces.drop_last())
    } else {
        Some(pieces.len() - 1)
    }
}

/// The file name of a path (`Path::file_name`): its last component, unless
/// that is `..` or there is none.
pub open spec fn file_name_of(p: Seq<char>) -> Option<Seq<char>> {
    let pieces = split_on(p, '/');
    match last_named(pieces) {
        Some(k) => if pieces[k] == dot_dot() { None } else { Some(pieces[k]) },
        None => None,
    }
}

pub open spec fn is_absolute_path(p: Seq<char>) -> bool {
    p.len() > 0 && p[0] == '/'
}

/// Some component of the path is `..`.
pub open spec fn has_parent_piece(p: Seq<char>) -> bool {
    exists|k: int| 0 <= k < split_on(p, '/').len() && #[trigger] split_on(p, '/')[k] == dot_dot()
}

/// The position of the last `.` in `s`.
pub open spec fn last_dot(s: Seq<char>) -> Option<int>
    decreases s.len(),
{
    if s.len() == 0 {
        None
    } else if s.last() == '.' {
        Some(s.len() - 1)
    } else {
        last_dot(s.drop_last())
    }
}

/// The extension of a file name (`Path::extension`): what follows its last
/// `.`, unless that dot starts the name, or the name is `..`.
pub open spec fn extension_of(name: Seq<char>) -> Option<Seq<char>> {
    if name == dot_dot() {
        None
    } else {
        match last_dot(name) {
            Some(i) => if i > 0 { Some(name.skip(i + 1)) } else { None },
            None => None,
        }
    }
}

/// The stem of a file name (`Path::file_stem`): the name without its
/// extension.
pub open spec fn stem_of(name: Seq<char>) -> Seq<char> {
    if name == dot_dot() {
        name
    } else {
        match last_dot(name) {
            Some(i) => if i > 0 { name.subrange(0, i) } else { name },
            None => name,
        }
    }
}

proof fn lemma_last_dot_range(s: Seq<char>)
    ensures
        last_dot(s) matches Some(i) ==> 0 <= i < s.len() && s[i] == '.',
    decreases s.len(),
{
    if s.len() > 0 {
        lemma_last_dot_range(s.drop_last());
    }
}

proof fn lemma_last_named_range(p: Seq<Seq<char>>)
    ensures
        last_named(p) matches Some(k) ==> 0 <= k < p.len(),
    decreases p.len(),
{
    if p.len() > 0 {
        lemma_last_named_range(p.drop_last());
    }
}

fn is_dot_dot(s: &[char]) -> (r: bool)
    ensures
        r == (s@ == dot_dot()),
{
    let r = s.len() == 2 && s[0] == '.' && s[1] == '.';
    assert(r ==> s@ =~= dot_dot());
    r
}

fn find_last_named(pieces: &Vec<Vec<char>>) -> (r: Option<usize>)
    ensures
        r matches Some(k) ==> k < pieces@.len() && last_named(char_views(pieces@)) == Some(k as int),
        r is None ==> last_named(char_views(pieces@)) is None,
{
    let ghost cv = char_views(pieces@);
    let mut n: usize = pieces.len();
    assert(cv.subrange(0, n as int) =~= cv);
    while n > 0
        invariant
            n <= pieces@.len(),
            cv == char_views(pieces@),
            last_named(cv) == last_named(cv.subrange(0, n as int)),
        decreases n,
    {
        let p = &pieces[n - 1];
        assert(cv.subrange(0, n as int).last() == p@);
        assert(cv.subrange(0, n as int).drop_last() =~= cv.subrange(0, n - 1));
        let skipped = p.len() == 0 || (p.len() == 1 && p[0] == '.');
        assert(skipped == is_skipped_piece(p@)) by {
            if p@.len() == 1 && p@[0] == '.' {
                assert(p@ =~= seq!['.']);
            }
        }
        if !skipped {
            return Some(n - 1);
        }
        n = n - 1;
    }
    None
}

/// The file name of a path, as `Path::file_name` gives it.
pub fn file_name(path: &[char]) -> (r: Option<Vec<char>>)
    ensures
        match file_name_of(path@) {
            Some(n) => r matches Some(v) && v@ == n,
            None => r is None,
        },
{
    let pieces = split_chars(path, '/');
    let ghost sp = split_on(path@, '/');
    assert(sp == char_views(pieces@));
    proof {
        lemma_last_named_range(sp);
    }
    match find_last_named(&pieces) {
        Some(k) => {
            assert(last_named(sp) == Some(k as int));
            assert(sp[k as int] == pieces@[k as int]@);
            if is_dot_dot(pieces[k].as_slice()) {
                assert(file_name_of(path@) is None);
                None
            } else {
                let v = sub_chars(pieces[k].as_slice(), 0, pieces[k].len());
                assert(v@ =~= pieces@[k as int]@);
                assert(file_name_of(path@) == Some(sp[k as int]));
                Some(v)
            }
        },
        None => {
            assert(last_named(sp) is None);
            None
        },
    }
}

fn has_parent(path: &[char]) -> (r: bool)
    ensures
        r == has_parent_piece(path@),
{
    let pieces = split_chars(path, '/');
    let mut k: usize = 0;
    while k < pieces.len()
        invariant
            k <= pieces@.len(),
            char_views(pieces@) == split_on(path@, '/'),
            forall|j: int| 0 <= j < k ==> split_on(path@, '/')[j] != dot_dot(),
        decreases pieces@.len() - k,
    {
        assert(char_views(pieces@)[k as int] == pieces@[k as int]@);
        if is_dot_dot(pieces[k].as_slice()) {
            return true;
        }
        k = k + 1;
    }
    false
}

fn find_last_dot(s: &[char]) -> (r: Option<usize>)
    ensures
        r matches Some(i) ==> i < s.len() && last_dot(s@) == Some(i as int),
        r is None ==> last_dot(s@) is None,
{
    let mut n: usize = s.len();
    assert(s@.subrange(0, n as int) =~= s@);
    while n > 0
        invariant
            n <= s@.len(),
            last_dot(s@) == last_dot(s@.subrange(0, n as int)),
        decreases n,
    {
        assert(s@.subrange(0, n as int).drop_last() =~= s@.subrange(0, n - 1));
        if s[n - 1] == '.' {
            return Some(n - 1);
        }
        n = n - 1;
    }
    None
}

/// The stem and extension of a file name; the extension is empty when there
/// is none.
fn stem_and_extension(name: &[char]) -> (r: (Vec<char>, Vec<char>))
    ensures
        r.0@ == stem_of(name@),
        r.1@ == match extension_of(name@) {
            Some(e) => e,
            None => Seq::<char>::empty(),
        },
{
    assert(name@.subrange(0, name@.len() as int) =~= name@);
    proof {
        lemma_last_dot_range(name@);
    }
    if is_dot_dot(name) {
        return (sub_chars(name, 0, name.len()), Vec::new());
    }
    match find_last_dot(name) {
        Some(i) => {
            if i > 0 {
                assert(name@.skip(i + 1) =~= name@.subrange(i + 1, name@.len() as int));
                (sub_chars(name, 0, i), sub_chars(name, i + 1, name.len()))
            } else {
                (sub_chars(name, 0, name.len()), Vec::new())
            }
        },
        None => {
            (sub_chars(name, 0, name.len()), Vec::new())
        },
    }
}

pub open spec fn ext_or_empty(name: Seq<char>) -> Seq<char> {
    match extension_of(name) {
        Some(e) => e,
        None => Seq::<char>::empty(),
    }
}

/// `utf8_len`, held at `usize::MAX`.
pub open spec fn byte_len(s: Seq<char>) -> nat {
    if utf8_len(s) <= usize::MAX { utf8_len(s) } else { usize::MAX as nat }
}

/// A file name shortened for display to about `max_len` characters: the end
/// of its stem and its extension are kept behind `...` when the stem is
/// long; otherwise its start is kept, followed by `...`. Lengths of the stem
/// and extension are counted in UTF-8 bytes, as `str::len` counts them.
pub open spec fn truncated(f: Seq<char>, max_len: nat) -> Seq<char> {
    if f.len() > max_len {
        let stem = match file_name_of(f) {
            Some(n) => stem_of(n),
            None => Seq::<char>::empty(),
        };
        let ext = match file_name_of(f) {
            Some(n) => ext_or_empty(n),
            None => Seq::<char>::empty(),
        };
        let ext_part = if ext.len() > 0 { seq!['.'] + ext } else { Seq::<char>::empty() };
        let need = byte_len(ext_part) + 3;
        let available: nat = if max_len >= need { (max_len - need) as nat } else { 0 };
        if available > 0 && byte_len(stem) > available {
            let start: int = if stem.len() >= available { stem.len() - available } else { 0 };
            "..."@ + stem.skip(start) + ext_part
        } else if max_len >= 3 {
            f.subrange(0, max_len - 3) + "..."@
        } else {
            f + "..."@
        }
    } else {
        f
    }
}

/// Shortens a file name or path for a progress line.
pub fn truncate_filename(filename: &str, max_len: usize) -> (r: String)
    ensures
        r@ == truncated(filename@, max_len as nat),
{
    let f = to_chars(filename);
    if f.len() <= max_len {
        return string_of(f.as_slice());
    }
    let (stem, ext) = match file_name(f.as_slice()) {
        Some(n) => stem_and_extension(n.as_slice()),
        None => (Vec::new(), Vec::new()),
    };
    let mut ext_part: Vec<char> = Vec::new();
    if ext.len() > 0 {
        ext_part.push('.');
        let mut k: usize = 0;
        while k < ext.len()
            invariant
                k <= ext@.len(),
                ext_part@ == seq!['.'] + ext@.subrange(0, k as int),
            decreases ext@.len() - k,
        {
            ext_part.push(ext[k]);
            k = k + 1;
            assert(ext_part@ =~= seq!['.'] + ext@.subrange(0, k as int));
        }
        assert(ext@.subrange(0, k as int) =~= ext@);
    }
    let need = utf8_length(ext_part.as_slice()).saturating_add(3);
    let available = max_len.saturating_sub(need);
    let stem_bytes = utf8_length(stem.as_slice());
    let mut r = String::new();
    if available > 0 && stem_bytes > available {
        let start = if stem.len() >= available { stem.len() - available } else { 0 };
        push_str(&mut r, "...");
        let tail = sub_chars(stem.as_slice(), start, stem.len());
        assert(tail@ =~= stem@.skip(start as int));
        push_chars(&mut r, tail.as_slice());
        push_chars(&mut r, ext_part.as_slice());
    } else if max_len >= 3 {
        let head = sub_chars(f.as_slice(), 0, max_len - 3);
        push_chars(&mut r, head.as_slice());
        push_str(&mut r, "...");
    } else {
        push_chars(&mut r, f.as_slice());
        push_str(&mut r, "...");
    }
    r
}

/// What `path_clean::clean` returns for a path.
pub uninterp spec fn cleaned_path_of(p: Seq<char>) -> Seq<char>;

/// Relies on `path_clean::clean`: lexical normalisation of a path (drops `.`
/// components, resolves `..` against the names before it, collapses
/// repeated separators), a function of the path alone.
#[verifier::external_body]
fn clean_path(p: &str) -> (r: String)
    ensures
        r@ == cleaned_path_of(p@),
{
    path_clean::clean(p).to_string_lossy().into_owned()
}

/// The path of a URL, when `url::Url::parse` accepts it.
pub uninterp spec fn url_path_of(s: Seq<char>) -> Option<Seq<char>>;

/// Relies on `url::Url::parse` and `Url::path`: whether the text parses as a
/// URL, and the URL's path, depend on the text alone.
#[verifier::external_body]
fn parsed_url_path(s: &str) -> (r: Option<String>)
    ensures
        r is Some <==> url_path_of(s@) is Some,
        r matches Some(x) ==> url_path_of(s@) == Some(x@),
{
    match url::Url::parse(s) {
        Ok(u) => Some(u.path().to_string()),
        Err(_) => None,
    }
}

pub open spec fn name_or_empty(o: Option<Seq<char>>) -> Seq<char> {
    match o {
        Some(n) => n,
        None => Seq::<char>::empty(),
    }
}

/// The name taken from a cleaned preferred name, and whether it had to be cut
/// to its base name because it was absolute or climbed out with `..`.
pub open spec fn preferred_candidate(cleaned: Seq<char>) -> (Seq<char>, bool) {
    if is_absolute_path(cleaned) || has_parent_piece(cleaned) {
        (name_or_empty(file_name_of(cleaned)), true)
    } else {
        (cleaned, false)
    }
}

pub open spec fn opt_view(o: Option<&str>) -> Option<Seq<char>> {
    match o {
        Some(p) => Some(p@),
        None => None,
    }
}

/// The candidate name for a download, and whether a preferred name was cut
/// to its base name: from the cleaned preferred name when there is one,
/// else the last component of the URL's path (of the text itself when it is
/// no URL).
pub open spec fn candidate_for(url: Seq<char>, preferred: Option<Seq<char>>) -> (Seq<char>, bool) {
    match preferred {
        Some(p) => preferred_candidate(cleaned_path_of(p)),
        None => match url_path_of(url) {
            Some(path) => (name_or_empty(file_name_of(path)), false),
            None => (name_or_empty(file_name_of(url)), false),
        },
    }
}

/// Names that cannot serve as a file name.
pub open spec fn needs_fallback(name: Seq<char>) -> bool {
    name.len() == 0 || name == seq!['.'] || name == seq!['/'] || name[0] == '?'
}

pub open spec fn bad_ext_char(c: char) -> bool {
    c == '?' || c == '=' || c == '&' || c == '/' || c == '\\' || c == '*' || c == '"' || c == '<'
        || c == '>' || c == '|'
}

/// An extension short and plain enough to keep on a generated name.
pub open spec fn safe_ext(e: Seq<char>) -> bool {
    e.len() > 0 && byte_len(e) < 7 && forall|k: int| 0 <= k < e.len() ==> !bad_ext_char(#[trigger] e[k])
}

/// `.ext` when the name has a safe extension, `.file` otherwise.
pub open spec fn fallback_suffix(name: Seq<char>) -> Seq<char> {
    match file_name_of(name) {
        Some(n) => match extension_of(n) {
            Some(e) => if safe_ext(e) { seq!['.'] + e } else { ".file"@ },
            None => ".file"@,
        },
        None => ".file"@,
    }
}

/// The stored name: the candidate, or `download_<hex timestamp>` with a safe
/// extension when the candidate cannot serve.
pub open spec fn final_name(candidate: Seq<char>, timestamp: nat) -> Seq<char> {
    if needs_fallback(candidate) {
        "download_"@ + hex_of(timestamp) + fallback_suffix(candidate)
    } else {
        candidate
    }
}

/// The name chosen for a download.
pub struct GeneratedName {
    pub name: String,
    /// The preferred name was absolute or held `..`, and only its base name
    /// was kept.
    pub unsafe_preferred: bool,
    /// No usable name was found, and a generated one is used.
    pub fallback: bool,
}

/// The candidate name from a preferred name that was already cleaned.
pub fn name_from_preferred(cleaned: &str) -> (r: (String, bool))
    ensures
        (r.0@, r.1) == preferred_candidate(cleaned@),
{
    let v = to_chars(cleaned);
    let abs = v.len() > 0 && v[0] == '/';
    if abs || has_parent(v.as_slice()) {
        match file_name(v.as_slice()) {
            Some(n) => (string_of(n.as_slice()), true),
            None => (String::new(), true),
        }
    } else {
        (string_of(v.as_slice()), false)
    }
}

/// The candidate name from the path of a URL (or from the text itself, when
/// it is no URL): its last component.
pub fn name_from_path(path: &str) -> (r: String)
    ensures
        r@ == name_or_empty(file_name_of(path@)),
{
    let v = to_chars(path);
    match file_name(v.as_slice()) {
        Some(n) => string_of(n.as_slice()),
        None => String::new(),
    }
}

fn is_safe_ext(e: &[char]) -> (r: bool)
    ensures
        r == safe_ext(e@),
{
    if e.len() == 0 || utf8_length(e) >= 7 {
        return false;
    }
    let mut k: usize = 0;
    while k < e.len()
        invariant
            k <= e@.len(),
            forall|j: int| 0 <= j < k ==> !bad_ext_char(#[trigger] e@[j]),
        decreases e@.len() - k,
    {
        let c = e[k];
        if c == '?' || c == '=' || c == '&' || c == '/' || c == '\\' || c == '*' || c == '"' || c
            == '<' || c == '>' || c == '|' {
            assert(bad_ext_char(e@[k as int]));
            return false;
        }
        k = k + 1;
    }
    true
}

/// Turns a candidate into the stored name; `timestamp` (nanoseconds since
/// the Unix epoch) makes a generated name unique.
pub fn finish_name(candidate: &str, timestamp: u128) -> (r: (String, bool))
    ensures
        r.0@ == final_name(candidate@, timestamp as nat),
        r.1 == needs_fallback(candidate@),
{
    let v = to_chars(candidate);
    let bad = v.len() == 0 || (v.len() == 1 && (v[0] == '.' || v[0] == '/')) || (v.len() > 0
        && v[0] == '?');
    assert(bad == needs_fallback(candidate@)) by {
        if v@.len() == 1 {
            if v@[0] == '.' {
                assert(v@ =~= seq!['.']);
            }
            if v@[0] == '/' {
                assert(v@ =~= seq!['/']);
            }
        }
    }
    if !bad {
        return (string_of(v.as_slice()), false);
    }
    let mut r = String::new();
    push_str(&mut r, "download_");
    push_hex(&mut r, timestamp);
    let mut suffix_done = false;
    match file_name(v.as_slice()) {
        Some(n) => {
            let (_, e) = stem_and_extension(n.as_slice());
            if is_safe_ext(e.as_slice()) {
                r.push('.');
                push_chars(&mut r, e.as_slice());
                suffix_done = true;
            }
        },
        None => {},
    }
    if !suffix_done {
        push_str(&mut r, ".file");
    }
    (r, true)
}

/// Chooses the name under which a download is stored. A preferred name is
/// cleaned, and cut to its base name when it is absolute or climbs out with
/// `..`; without one, the last component of the URL's path is used. An
/// empty or unusable result is replaced by a generated name.
pub fn generate_actual_filename(url: &str, preferred: Option<&str>, timestamp: u128) -> (r:
    GeneratedName)
    ensures
        ({
            let (candidate, cut) = candidate_for(url@, opt_view(preferred));
            &&& r.name@ == final_name(candidate, timestamp as nat)
            &&& r.unsafe_preferred == cut
            &&& r.fallback == needs_fallback(candidate)
        }),
{
    let (candidate, cut) = match preferred {
        Some(p) => {
            let cleaned = clean_path(p);
            name_from_preferred(cleaned.as_str())
        },
        None => match parsed_url_path(url) {
            Some(path) => (name_from_path(path.as_str()), false),
            None => (name_from_path(url), false),
        },
    };
    let (name, fallback) = finish_name(candidate.as_str(), timestamp);
    GeneratedName { name, unsafe_preferred: cut, fallback }
}

proof fn lemma_pieces_hold_no_sep(s: Seq<char>, sep: char)
    ensures
        forall|k: int| 0 <= k < split_on(s, sep).len() ==> !(#[trigger] split_on(s, sep)[k]).contains(sep),
    decreases s.len(),
{
    lemma_split_on_nonempty(s, sep);
    if s.len() > 0 {
        lemma_pieces_hold_no_sep(s.drop_last(), sep);
        lemma_split_on_nonempty(s.drop_last(), sep);
        let rest = split_on(s.drop_last(), sep);
        assert forall|k: int| 0 <= k < split_on(s, sep).len() implies !(#[trigger] split_on(
            s,
            sep,
        )[k]).contains(sep) by {
            if s.last() != sep && k == rest.len() - 1 {
                let piece = rest.last().push(s.last());
                assert(!rest[k].contains(sep));
                assert forall|j: int| 0 <= j < piece.len() implies piece[j] != sep by {
                    if j < rest.last().len() {
                        assert(piece[j] == rest.last()[j]);
                    }
                }
            }
        }
    }
}

proof fn lemma_split_without_sep(s: Seq<char>, sep: char)
    requires
        !s.contains(sep),
    ensures
        split_on(s, sep) == seq![s],
    decreases s.len(),
{
    if s.len() > 0 {
        assert(!s.drop_last().contains(sep)) by {
            if s.drop_last().contains(sep) {
                let j = choose|j: int| 0 <= j < s.drop_last().len() && s.drop_last()[j] == sep;
                assert(s[j] == sep);
            }
        }
        lemma_split_without_sep(s.drop_last(), sep);
        assert(s.last() != sep) by {
            assert(s[s.len() - 1] == s.last());
        }
        assert(split_on(s, sep) =~= seq![s]) by {
            assert(s.drop_last().push(s.last()) =~= s);
        }
    } else {
        assert(s =~= Seq::<char>::empty());
    }
}

/// A name without `/` that is not `..` stays inside the directory it is
/// joined to.
proof fn lemma_plain_name_inside(n: Seq<char>)
    requires
        !n.contains('/'),
        n != dot_dot(),
    ensures
        !is_absolute_path(n),
        !has_parent_piece(n),
{
    lemma_split_without_sep(n, '/');
    if n.len() > 0 {
        assert(n[0] != '/') by {
            if n[0] == '/' {
                assert(n.contains('/'));
            }
        }
    }
}

proof fn lemma_hex_plain(n: nat)
    ensures
        !hex_of(n).contains('/'),
        hex_of(n).len() > 0,
    decreases n,
{
    if n >= 16 {
        lemma_hex_plain(n / 16);
        let h = hex_of(n / 16);
        let full = h.push(hex_char(n % 16));
        assert forall|j: int| 0 <= j < full.len() implies #[trigger] full[j] != '/' by {
            if j < h.len() {
                assert(full[j] == h[j]);
            }
        }
    }
}

proof fn lemma_file_name_plain(p: Seq<char>)
    ensures
        file_name_of(p) matches Some(n) ==> !n.contains('/') && n != dot_dot(),
{
    let pieces = split_on(p, '/');
    lemma_last_named_range(pieces);
    lemma_pieces_hold_no_sep(p, '/');
    if let Some(k) = last_named(pieces) {
        assert(!pieces[k].contains('/'));
    }
}

proof fn lemma_generated_name_plain(candidate: Seq<char>, timestamp: nat)
    requires
        needs_fallback(candidate),
    ensures
        !final_name(candidate, timestamp).contains('/'),
        final_name(candidate, timestamp) != dot_dot(),
{
    reveal_strlit("download_");
    reveal_strlit(".file");
    lemma_hex_plain(timestamp);
    let h = hex_of(timestamp);
    let suffix = fallback_suffix(candidate);
    assert(!suffix.contains('/')) by {
        if let Some(n) = file_name_of(candidate) {
            if let Some(e) = extension_of(n) {
                if safe_ext(e) {
                    assert forall|j: int| 0 <= j < suffix.len() implies suffix[j] != '/' by {
                        if j > 0 {
                            assert(suffix[j] == e[j - 1]);
                            assert(!bad_ext_char(e[j - 1]));
                        }
                    }
                }
            }
        }
    }
    let f = final_name(candidate, timestamp);
    assert(f == "download_"@ + h + suffix);
    assert forall|j: int| 0 <= j < f.len() implies f[j] != '/' by {
        if j < 9 {
            assert(f[j] == "download_"@[j]);
        } else if j < 9 + h.len() {
            assert(f[j] == h[j - 9]);
        } else {
            assert(f[j] == suffix[j - 9 - h.len()]);
        }
    }
    assert(f[0] == 'd');
}

/// Whatever the URL and the preferred name (`../../etc/passwd`, `/etc/x`, a
/// URL ending in `/`), the stored name is not empty, is relative and has no
/// `..` component: joined to the destination directory, it stays inside it.
pub proof fn lemma_stored_name_stays_inside(
    url: Seq<char>,
    preferred: Option<Seq<char>>,
    timestamp: nat,
)
    ensures
        final_name(candidate_for(url, preferred).0, timestamp).len() > 0,
        !is_absolute_path(final_name(candidate_for(url, preferred).0, timestamp)),
        !has_parent_piece(final_name(candidate_for(url, preferred).0, timestamp)),
{
    let c = candidate_for(url, preferred).0;
    if needs_fallback(c) {
        lemma_generated_name_plain(c, timestamp);
        lemma_plain_name_inside(final_name(c, timestamp));
        reveal_strlit("download_");
        assert(final_name(c, timestamp).len() >= 9);
    } else {
        match preferred {
            Some(p) => {
                let cleaned = cleaned_path_of(p);
                if is_absolute_path(cleaned) || has_parent_piece(cleaned) {
                    lemma_file_name_plain(cleaned);
                    lemma_plain_name_inside(c);
                }
            },
            None => {
                let src = match url_path_of(url) {
                    Some(path) => path,
                    None => url,
                };
                lemma_file_name_plain(src);
                lemma_plain_name_inside(c);
            },
        }
    }
}

} // verus!
