//! Files of a model repository and the download items built from them.

use vstd::prelude::*;
use vstd::string::*;
use vstd::utf8::encode_utf8;
use crate::naming::{clean_repo_id, repo_part};
use crate::text::{char_views, push_str, split_chars, split_on, string_of, to_chars};

verus! {

/// One file of a remote repository: where to fetch it and its path inside
/// the repository.
#[derive(Debug)]
pub struct HFFile {
    pub url: String,
    pub filename: String,
}

impl Clone for HFFile {
    fn clone(&self) -> (r: Self)
        ensures
            r == *self,
    {
        HFFile { url: self.url.clone(), filename: self.filename.clone() }
    }
}

/// One transfer to perform: a source URL and, optionally, the name the file
/// should get on disk.
#[derive(Debug)]
pub struct DownloadItem {
    pub url: String,
    pub preferred_filename: Option<String>,
}

/// Bytes that percent-encoding leaves as they are.
pub open spec fn is_unreserved(b: u8) -> bool {
    (48 <= b && b <= 57) || (65 <= b && b <= 90) || (97 <= b && b <= 122) || b == 45 || b == 46
        || b == 95 || b == 126
}

/// The upper-case hexadecimal digit of `d < 16`.
pub open spec fn hex_upper(d: u8) -> char {
    if d < 10 {
        crate::text::digit_char(d as nat)
    } else if d == 10 { 'A' } else if d == 11 { 'B' } else if d == 12 { 'C' } else if d == 13 { 'D' }
    else if d == 14 { 'E' } else { 'F' }
}

/// Percent-encoding of bytes: unreserved bytes stay, every other byte
/// becomes `%` and two upper-case hexadecimal digits.
pub open spec fn percent_encoded(bytes: Seq<u8>) -> Seq<char>
    decreases bytes.len(),
{
    if bytes.len() == 0 {
        Seq::empty()
    } else {
        let rest = percent_encoded(bytes.drop_last());
        let b = bytes.last();
        if is_unreserved(b) {
            rest.push(b as char)
        } else {
            rest + seq!['%', hex_upper(b / 16), hex_upper(b % 16)]
        }
    }
}

/// Relies on `urlencoding::encode`: percent-encodes every byte of the UTF-8
/// text except ASCII letters, digits and `-`, `.`, `_`, `~`, with upper-case
/// hexadecimal digits.
#[verifier::external_body]
fn url_encode(s: &str) -> (r: String)
    ensures
        r@ == percent_encoded(encode_utf8(s@)),
{
    urlencoding::encode(s).into_owned()
}

/// The pieces joined with `/` between them.
pub open spec fn join_slash(pieces: Seq<Seq<char>>) -> Seq<char>
    decreases pieces.len(),
{
    if pieces.len() == 0 {
        Seq::empty()
    } else if pieces.len() == 1 {
        pieces[0]
    } else {
        join_slash(pieces.drop_last()) + seq!['/'] + pieces.last()
    }
}

/// A repository path with each component percent-encoded.
pub open spec fn encoded_path(path: Seq<char>) -> Seq<char> {
    join_slash(split_on(path, '/').map_values(|p: Seq<char>| percent_encoded(encode_utf8(p))))
}

/// The download URL of a file of a repository, on its main branch.
pub open spec fn file_url(repo: Seq<char>, path: Seq<char>) -> Seq<char> {
    "https://huggingface.co/"@ + repo + "/resolve/main/"@ + encoded_path(path) + "?download=true"@
}

fn encode_path(path: &str) -> (r: String)
    ensures
        r@ == encoded_path(path@),
{
    let cv = to_chars(path);
    let pieces = split_chars(cv.as_slice(), '/');
    let ghost enc = split_on(path@, '/').map_values(|p: Seq<char>| percent_encoded(encode_utf8(p)));
    let mut r = String::new();
    let mut i: usize = 0;
    while i < pieces.len()
        invariant
            i <= pieces@.len(),
            char_views(pieces@) == split_on(path@, '/'),
            enc == split_on(path@, '/').map_values(|p: Seq<char>| percent_encoded(encode_utf8(p))),
            r@ == join_slash(enc.subrange(0, i as int)),
        decreases pieces@.len() - i,
    {
        let piece = string_of(pieces[i].as_slice());
        let e = url_encode(piece.as_str());
        assert(char_views(pieces@)[i as int] == pieces@[i as int]@);
        assert(enc.subrange(0, i + 1).drop_last() =~= enc.subrange(0, i as int));
        if i > 0 {
            r.push('/');
        } else {
            assert(enc.subrange(0, 1) =~= seq![enc[0]]);
        }
        push_str(&mut r, e.as_str());
        i = i + 1;
    }
    assert(enc.subrange(0, i as int) =~= enc);
    r
}

/// The files of a repository listing, each with its download URL.
pub fn hf_files(repo_id: &str, paths: Vec<String>) -> (r: Vec<HFFile>)
    ensures
        r@.len() == paths@.len(),
        forall|k: int|
            0 <= k < paths@.len() ==> (#[trigger] r@[k]).filename == paths@[k] && r@[k].url@
                == file_url(repo_part(repo_id@), paths@[k]@),
{
    let repo = clean_repo_id(repo_id);
    let ghost orig = paths@;
    let mut paths = paths;
    let mut r: Vec<HFFile> = Vec::new();
    while paths.len() > 0
        invariant
            r@.len() + paths@.len() == orig.len(),
            repo@ == repo_part(repo_id@),
            paths@ == orig.subrange(r@.len() as int, orig.len() as int),
            forall|k: int|
                0 <= k < r@.len() ==> (#[trigger] r@[k]).filename == orig[k] && r@[k].url@
                    == file_url(repo_part(repo_id@), orig[k]@),
        decreases paths@.len(),
    {
        let name = paths.remove(0);
        let mut url = String::new();
        push_str(&mut url, "https://huggingface.co/");
        push_str(&mut url, repo.as_str());
        push_str(&mut url, "/resolve/main/");
        let e = encode_path(name.as_str());
        push_str(&mut url, e.as_str());
        push_str(&mut url, "?download=true");
        assert(url@ =~= file_url(repo_part(repo_id@), name@));
        r.push(HFFile { url, filename: name });
        assert(paths@ =~= orig.subrange(r@.len() as int, orig.len() as int));
    }
    r
}

/// The address of the listing of a repository.
pub fn repo_api_url(repo_id: &str) -> (r: String)
    ensures
        r@ == "https://huggingface.co/api/models/"@ + repo_part(repo_id@),
{
    let repo = clean_repo_id(repo_id);
    let mut r = String::new();
    push_str(&mut r, "https://huggingface.co/api/models/");
    push_str(&mut r, repo.as_str());
    r
}

/// The value of the `Authorization` header sent with an access token; an
/// empty token sends none.
pub fn auth_header(token: &str) -> (r: Option<String>)
    ensures
        r is None <==> token@.len() == 0,
        r matches Some(h) ==> h@ == "Bearer "@ + token@,
{
    if token.unicode_len() == 0 {
        None
    } else {
        let mut h = String::new();
        push_str(&mut h, "Bearer ");
        push_str(&mut h, token);
        Some(h)
    }
}

} // verus!
