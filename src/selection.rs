//! Interpreting the user's answer to the selection menu.
//!
//! An answer is `none`, `all`, or a comma-separated list of 1-based entry
//! numbers. Incomplete series are skipped with a warning; any token that is
//! not a number of an entry makes the whole answer invalid.

use vstd::prelude::*;
use crate::hf::HFFile;
use crate::series::{entry_complete, entry_files, SelectableGGUFItem};
use crate::text::{
    char_views, chars_eq, lower_of, lowercase, parse_usize, parse_usize_spec, split_chars, split_on,
    string_of, to_chars, trim_chars, trim_spec,
};

verus! {

/// The tokens of an answer: the comma-separated pieces, trimmed, without
/// the empty ones.
pub open spec fn tokens_of(s: Seq<char>) -> Seq<Seq<char>> {
    split_on(s, ',').map_values(|p: Seq<char>| trim_spec(p)).filter(|t: Seq<char>| t.len() > 0)
}

/// The entry that a token names among `n` entries, as a 0-based index.
pub open spec fn token_index(t: Seq<char>, n: nat) -> Option<int> {
    match parse_usize_spec(t) {
        Some(v) => if 1 <= v <= n { Some(v - 1) } else { None },
        None => None,
    }
}

/// The files of the chosen entries, in order, with the complete entries'
/// files and the positions of the incomplete ones, which are skipped.
pub open spec fn picked(idx: Seq<int>, entries: Seq<SelectableGGUFItem>) -> (Seq<HFFile>, Seq<int>)
    decreases idx.len(),
{
    if idx.len() == 0 {
        (Seq::empty(), Seq::empty())
    } else {
        let prev = picked(idx.drop_last(), entries);
        let e = entries[idx.last()];
        if entry_complete(e) {
            (prev.0 + entry_files(e), prev.1)
        } else {
            (prev.0, prev.1.push(idx.last()))
        }
    }
}

/// Drops every file for which a later file has the same name, so that the
/// later one wins.
pub open spec fn dedup_by_name(s: Seq<HFFile>) -> Seq<HFFile>
    decreases s.len(),
{
    if s.len() == 0 {
        s
    } else {
        let rest = dedup_by_name(s.drop_first());
        if exists|j: int| 1 <= j < s.len() && (#[trigger] s[j]).filename@ == s[0].filename@ {
            rest
        } else {
            seq![s[0]] + rest
        }
    }
}

/// The position of the first token that names no entry.
pub open spec fn first_invalid(tokens: Seq<Seq<char>>, n: nat) -> Option<int>
    decreases tokens.len(),
{
    if tokens.len() == 0 {
        None
    } else {
        match first_invalid(tokens.drop_last(), n) {
            Some(j) => Some(j),
            None => if token_index(tokens.last(), n) is None {
                Some(tokens.len() - 1)
            } else {
                None
            },
        }
    }
}

/// The entries that tokens name, as 0-based indices.
pub open spec fn token_indices(tokens: Seq<Seq<char>>, n: nat) -> Seq<int> {
    tokens.map_values(|t: Seq<char>| token_index(t, n)->0)
}

/// What an answer leads to.
pub enum Selection {
    /// The files to download, and the entries skipped as incomplete.
    Files { files: Vec<HFFile>, skipped: Vec<usize> },
    /// The answer holds a token that names no entry: ask again. `skipped`
    /// lists the incomplete entries named before it.
    Invalid { token: String, skipped: Vec<usize> },
}

pub open spec fn usize_seq(s: Seq<usize>) -> Seq<int> {
    s.map_values(|x: usize| x as int)
}

/// Every entry position, in order.
pub open spec fn all_positions(n: nat) -> Seq<int> {
    Seq::new(n, |k: int| k)
}

proof fn lemma_usize_seq_push(s: Seq<usize>, x: usize)
    ensures
        usize_seq(s.push(x)) == usize_seq(s).push(x as int),
{
    assert(usize_seq(s.push(x)) =~= usize_seq(s).push(x as int));
}

fn pick(idx: &Vec<usize>, entries: &Vec<SelectableGGUFItem>) -> (r: (Vec<HFFile>, Vec<usize>))
    requires
        forall|k: int| 0 <= k < idx@.len() ==> idx@[k] < entries@.len(),
    ensures
        (r.0@, usize_seq(r.1@)) == picked(usize_seq(idx@), entries@),
{
    let mut files: Vec<HFFile> = Vec::new();
    let mut skipped: Vec<usize> = Vec::new();
    let mut i: usize = 0;
    while i < idx.len()
        invariant
            i <= idx@.len(),
            forall|k: int| 0 <= k < idx@.len() ==> idx@[k] < entries@.len(),
            (files@, usize_seq(skipped@)) == picked(usize_seq(idx@.subrange(0, i as int)), entries@),
        decreases idx@.len() - i,
    {
        let ghost pre = usize_seq(idx@.subrange(0, i as int));
        let ghost next = usize_seq(idx@.subrange(0, i + 1));
        assert(next.drop_last() =~= pre);
        let e = &entries[idx[i]];
        if e.is_complete() {
            let mut more = e.get_files();
            files.append(&mut more);
        } else {
            skipped.push(idx[i]);
            assert(usize_seq(skipped@) =~= picked(pre, entries@).1.push(idx@[i as int] as int));
        }
        i = i + 1;
    }
    assert(idx@.subrange(0, i as int) =~= idx@);
    (files, skipped)
}

/// Keeps, of files with the same name, only the last.
pub fn dedup_files(files: Vec<HFFile>) -> (r: Vec<HFFile>)
    ensures
        r@ == dedup_by_name(files@),
{
    let ghost s = files@;
    let mut r: Vec<HFFile> = Vec::new();
    let mut i: usize = files.len();
    while i > 0
        invariant
            i <= s.len(),
            files@ == s,
            r@ == dedup_by_name(s.subrange(i as int, s.len() as int)),
        decreases i,
    {
        let ghost suffix = s.subrange(i - 1, s.len() as int);
        assert(suffix.drop_first() =~= s.subrange(i as int, s.len() as int));
        let mut later = false;
        let mut j: usize = i;
        while j < files.len()
            invariant
                1 <= i <= j <= s.len(),
                files@ == s,
                later <==> exists|k: int| i <= k < j && (#[trigger] s[k]).filename@ == s[i - 1].filename@,
            decreases s.len() - j,
        {
            if files[j].filename == files[i - 1].filename {
                later = true;
            }
            j = j + 1;
        }
        assert(later <==> exists|k: int|
            1 <= k < suffix.len() && (#[trigger] suffix[k]).filename@ == suffix[0].filename@) by {
            if later {
                let k = choose|k: int| i <= k < j && (#[trigger] s[k]).filename@ == s[i - 1].filename@;
                assert(suffix[k - i + 1] == s[k]);
            }
            if exists|k: int| 1 <= k < suffix.len() && (#[trigger] suffix[k]).filename@ == suffix[0].filename@ {
                let k = choose|k: int|
                    1 <= k < suffix.len() && (#[trigger] suffix[k]).filename@ == suffix[0].filename@;
                assert(s[k + i - 1] == suffix[k]);
            }
        }
        if !later {
            let ghost old_r = r@;
            r.insert(0, files[i - 1].clone());
            assert(r@ =~= seq![s[i - 1]] + old_r);
        }
        i = i - 1;
    }
    assert(s.subrange(0, s.len() as int) =~= s);
    r
}

/// Splits an answer into its tokens.
pub fn answer_tokens(s: &Vec<char>) -> (r: Vec<Vec<char>>)
    ensures
        char_views(r@) == tokens_of(s@),
{
    let pieces = split_chars(s.as_slice(), ',');
    let ghost trimmed = split_on(s@, ',').map_values(|p: Seq<char>| trim_spec(p));
    let ghost nonempty = |t: Seq<char>| t.len() > 0;
    let mut r: Vec<Vec<char>> = Vec::new();
    let mut i: usize = 0;
    while i < pieces.len()
        invariant
            i <= pieces@.len(),
            char_views(pieces@) == split_on(s@, ','),
            trimmed == split_on(s@, ',').map_values(|p: Seq<char>| trim_spec(p)),
            nonempty == (|t: Seq<char>| t.len() > 0),
            char_views(r@) == trimmed.subrange(0, i as int).filter(nonempty),
        decreases pieces@.len() - i,
    {
        let t = trim_chars(pieces[i].as_slice());
        let ghost pre = trimmed.subrange(0, i as int);
        let ghost next = trimmed.subrange(0, i + 1);
        assert(next.drop_last() =~= pre);
        assert(next.last() == t@);
        reveal(Seq::filter);
        if t.len() > 0 {
            r.push(t);
            assert(char_views(r@) =~= pre.filter(nonempty).push(next.last()));
        }
        i = i + 1;
    }
    assert(trimmed.subrange(0, i as int) =~= trimmed);
    r
}

proof fn lemma_first_invalid_extend(t: Seq<Seq<char>>, m: int, n: nat)
    requires
        0 <= m <= t.len(),
        first_invalid(t.subrange(0, m), n) is Some,
    ensures
        first_invalid(t, n) == first_invalid(t.subrange(0, m), n),
    decreases t.len() - m,
{
    if m < t.len() {
        assert(t.subrange(0, m + 1).drop_last() =~= t.subrange(0, m));
        lemma_first_invalid_extend(t, m + 1, n);
    } else {
        assert(t.subrange(0, m) =~= t);
    }
}

/// `r` is what the answer `choice` (already trimmed and lower-cased) leads
/// to on the menu `entries`.
pub open spec fn answers(choice: Seq<char>, entries: Seq<SelectableGGUFItem>, r: Selection) -> bool {
    let n = entries.len();
    if choice == "none"@ {
        r matches Selection::Files { files, skipped } && files@.len() == 0 && skipped@.len() == 0
    } else if choice == "all"@ {
        let p = picked(all_positions(n), entries);
        r matches Selection::Files { files, skipped } && files@ == dedup_by_name(p.0) && usize_seq(
            skipped@,
        ) == p.1
    } else {
        let toks = tokens_of(choice);
        match first_invalid(toks, n) {
            Some(j) => r matches Selection::Invalid { token, skipped } && token@ == toks[j]
                && usize_seq(skipped@) == picked(token_indices(toks.subrange(0, j), n), entries).1,
            None => {
                let p = picked(token_indices(toks, n), entries);
                r matches Selection::Files { files, skipped } && files@ == dedup_by_name(p.0)
                    && usize_seq(skipped@) == p.1
            },
        }
    }
}

/// Interprets an answer that is already trimmed and lower-cased.
pub fn interpret_choice(choice: &str, entries: &Vec<SelectableGGUFItem>) -> (r: Selection)
    ensures
        answers(choice@, entries@, r),
{
    let n = entries.len();
    let cv = to_chars(choice);
    if chars_eq(&cv, &to_chars("none")) {
        return Selection::Files { files: Vec::new(), skipped: Vec::new() };
    }
    if chars_eq(&cv, &to_chars("all")) {
        let mut idx: Vec<usize> = Vec::new();
        let mut k: usize = 0;
        while k < n
            invariant
                k <= n,
                n == entries@.len(),
                idx@.len() == k,
                usize_seq(idx@) == all_positions(k as nat),
                forall|j: int| 0 <= j < idx@.len() ==> idx@[j] < n,
            decreases n - k,
        {
            proof {
                lemma_usize_seq_push(idx@, k);
            }
            idx.push(k);
            assert(usize_seq(idx@) =~= all_positions((k + 1) as nat));
            k = k + 1;
        }
        let (files, skipped) = pick(&idx, entries);
        let files = dedup_files(files);
        return Selection::Files { files, skipped };
    }
    let toks = answer_tokens(&cv);
    let ghost tv = tokens_of(choice@);
    let mut idx: Vec<usize> = Vec::new();
    let mut i: usize = 0;
    while i < toks.len()
        invariant
            i <= toks@.len(),
            n == entries@.len(),
            char_views(toks@) == tv,
            tv == tokens_of(choice@),
            choice@ != "none"@,
            choice@ != "all"@,
            first_invalid(tv.subrange(0, i as int), n as nat) is None,
            idx@.len() == i,
            usize_seq(idx@) == token_indices(tv.subrange(0, i as int), n as nat),
            forall|j: int| 0 <= j < idx@.len() ==> idx@[j] < n,
        decreases toks@.len() - i,
    {
        let ghost pre = tv.subrange(0, i as int);
        let ghost next = tv.subrange(0, i + 1);
        assert(next.drop_last() =~= pre);
        assert(next.last() == toks@[i as int]@);
        let v = parse_usize(toks[i].as_slice());
        let ok = match v {
            Some(x) => 1 <= x && x <= n,
            None => false,
        };
        if !ok {
            assert(token_index(next.last(), n as nat) is None);
            assert(first_invalid(next, n as nat) == Some(i as int));
            proof {
                lemma_first_invalid_extend(tv, i + 1, n as nat);
            }
            let (_, skipped) = pick(&idx, entries);
            let token = string_of(toks[i].as_slice());
            assert(token@ == tv[i as int]);
            assert(first_invalid(tv, n as nat) == Some(i as int));
            assert(usize_seq(skipped@) == picked(token_indices(tv.subrange(0, i as int), n as nat), entries@).1);
            return Selection::Invalid { token, skipped };
        }
        let x = match v {
            Some(x) => x,
            None => 0,
        };
        assert(token_index(next.last(), n as nat) == Some(x - 1));
        proof {
            lemma_usize_seq_push(idx@, (x - 1) as usize);
            assert(token_indices(next, n as nat) =~= token_indices(pre, n as nat).push(
                token_index(next.last(), n as nat)->0,
            ));
        }
        idx.push(x - 1);
        assert(usize_seq(idx@) =~= token_indices(next, n as nat));
        i = i + 1;
    }
    assert(tv.subrange(0, i as int) =~= tv);
    let (files, skipped) = pick(&idx, entries);
    let files = dedup_files(files);
    Selection::Files { files, skipped }
}

/// Interprets a line that the user typed: it is trimmed and lower-cased
/// first.
pub fn interpret_answer(line: &str, entries: &Vec<SelectableGGUFItem>) -> (r: Selection)
    ensures
        answers(lower_of(trim_spec(line@)), entries@, r),
{
    let cv = to_chars(line);
    let t = trim_chars(cv.as_slice());
    let ts = string_of(t.as_slice());
    let lowered = lowercase(ts.as_str());
    interpret_choice(lowered.as_str(), entries)
}

/// The answer `none` selects nothing, whatever the menu.
pub proof fn lemma_none_selects_nothing(entries: Seq<SelectableGGUFItem>, r: Selection)
    requires
        answers("none"@, entries, r),
    ensures
        r matches Selection::Files { files, skipped } && files@.len() == 0 && skipped@.len() == 0,
{
}

/// The answer `all` reports every incomplete entry as skipped.
pub proof fn lemma_all_skips_incomplete(entries: Seq<SelectableGGUFItem>, r: Selection, k: int)
    requires
        answers("all"@, entries, r),
        0 <= k < entries.len(),
        !entry_complete(entries[k]),
    ensures
        r matches Selection::Files { skipped, .. } && usize_seq(skipped@).contains(k),
{
    reveal_strlit("all");
    reveal_strlit("none");
    assert("all"@ != "none"@) by {
        assert("all"@.len() != "none"@.len());
    }
    lemma_picked_reports(all_positions(entries.len()), entries, k);
}

proof fn lemma_picked_reports(idx: Seq<int>, entries: Seq<SelectableGGUFItem>, k: int)
    requires
        0 <= k < idx.len(),
        0 <= idx[k] < entries.len(),
        !entry_complete(entries[idx[k]]),
    ensures
        picked(idx, entries).1.contains(idx[k]),
    decreases idx.len(),
{
    let prev = picked(idx.drop_last(), entries);
    if k < idx.len() - 1 {
        lemma_picked_reports(idx.drop_last(), entries, k);
        let j = choose|j: int| 0 <= j < prev.1.len() && prev.1[j] == idx[k];
        let e = entries[idx.last()];
        if !entry_complete(e) {
            assert(prev.1.push(idx.last())[j] == idx[k]);
        }
    } else {
        assert(prev.1.push(idx.last())[prev.1.len() as int] == idx[k]);
    }
}

proof fn lemma_picked_files_complete(idx: Seq<int>, entries: Seq<SelectableGGUFItem>, f: HFFile)
    requires
        picked(idx, entries).0.contains(f),
    ensures
        exists|j: int|
            0 <= j < idx.len() && entry_complete(#[trigger] entries[idx[j]]) && entry_files(
                entries[idx[j]],
            ).contains(f),
    decreases idx.len(),
{
    let prev = picked(idx.drop_last(), entries);
    let e = entries[idx.last()];
    let i = choose|i: int| 0 <= i < picked(idx, entries).0.len() && picked(idx, entries).0[i] == f;
    if entry_complete(e) && i >= prev.0.len() {
        let fs = entry_files(e);
        assert((prev.0 + fs)[i] == fs[i - prev.0.len()]);
        assert(fs.contains(f));
        assert(idx[idx.len() - 1] == idx.last());
    } else {
        if entry_complete(e) {
            assert((prev.0 + entry_files(e))[i] == prev.0[i]);
        }
        assert(prev.0.contains(f));
        lemma_picked_files_complete(idx.drop_last(), entries, f);
        let j = choose|j: int|
            0 <= j < idx.drop_last().len() && entry_complete(
                #[trigger] entries[idx.drop_last()[j]],
            ) && entry_files(entries[idx.drop_last()[j]]).contains(f);
        assert(idx.drop_last()[j] == idx[j]);
    }
}

proof fn lemma_dedup_within(s: Seq<HFFile>, f: HFFile)
    requires
        dedup_by_name(s).contains(f),
    ensures
        s.contains(f),
    decreases s.len(),
{
    if s.len() > 0 {
        let rest = dedup_by_name(s.drop_first());
        if rest.contains(f) {
            lemma_dedup_within(s.drop_first(), f);
            let i = choose|i: int| 0 <= i < s.drop_first().len() && s.drop_first()[i] == f;
            assert(s[i + 1] == f);
        } else {
            let d = dedup_by_name(s);
            let i = choose|i: int| 0 <= i < d.len() && d[i] == f;
            if i > 0 {
                assert((seq![s[0]] + rest)[i] == rest[i - 1]);
            }
            assert(s[0] == f);
        }
    }
}

/// The answer `all` yields only files of complete entries.
pub proof fn lemma_all_yields_complete_files(
    entries: Seq<SelectableGGUFItem>,
    r: Selection,
    f: HFFile,
)
    requires
        answers("all"@, entries, r),
        r matches Selection::Files { files, .. } && files@.contains(f),
    ensures
        exists|k: int|
            0 <= k < entries.len() && entry_complete(#[trigger] entries[k]) && entry_files(
                entries[k],
            ).contains(f),
{
    reveal_strlit("all");
    reveal_strlit("none");
    assert("all"@ != "none"@) by {
        assert("all"@.len() != "none"@.len());
    }
    let idx = all_positions(entries.len());
    let p = picked(idx, entries);
    if let Selection::Files { files, .. } = r {
        lemma_dedup_within(p.0, f);
        lemma_picked_files_complete(idx, entries, f);
        let j = choose|j: int|
            0 <= j < idx.len() && entry_complete(#[trigger] entries[idx[j]]) && entry_files(
                entries[idx[j]],
            ).contains(f);
        assert(0 <= idx[j] < entries.len());
    }
}

} // verus!
