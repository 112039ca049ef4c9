//! Grouping of a repository's model files into multi-part series.
//!
//! A part of a series is named `<base>-<NNNNN>-of-<MMMMM>.gguf`, with two
//! five-digit numerals; the parts of one series share `<base>` and the
//! declared total `MMMMM`. Every other file stands alone.

use vstd::prelude::*;
use crate::hf::HFFile;
use crate::order::{arrange, is_permutation, label_views, sort_order, sorted_stably};
use crate::text::{
    lower_of, lowercase, all_digits, chars_eq, decimal_of, digits_value, is_digit, push_decimal, push_str, string_of,
    sub_chars, to_chars,
};

verus! {

/// The fixed tail `-NNNNN-of-MMMMM.gguf` takes this many characters.
pub const SERIES_TAIL_LEN: usize = 20;

/// Whether `regex`'s `\d` matches the character: a Unicode decimal digit
/// (general category `Nd`), ASCII `0`-`9` among them.
pub uninterp spec fn decimal_digit_of(c: char) -> bool;

/// Relies on the `regex` crate: in its default Unicode mode `\d` is the
/// class `\p{Nd}`, so whether it matches depends on the character alone.
#[verifier::external_body]
fn is_decimal_digit(c: char) -> (r: bool)
    ensures
        r == decimal_digit_of(c),
{
    let mut buf = [0u8; 4];
    regex::Regex::new(r"\A\d\z").unwrap().is_match(c.encode_utf8(&mut buf))
}

/// Every character of `s` is a decimal digit in the sense of `\d`.
pub open spec fn all_decimal(s: Seq<char>) -> bool {
    forall|i: int| 0 <= i < s.len() ==> #[trigger] decimal_digit_of(s[i])
}

/// `s` is the name of a part of a series: anything but a line break, then
/// `-`, five decimal digits, `-of-`, five decimal digits and `.gguf`.
pub open spec fn is_series_name(s: Seq<char>) -> bool {
    let n = s.len() as int;
    &&& n >= 20
    &&& s[n - 20] == '-'
    &&& all_decimal(s.subrange(n - 19, n - 14))
    &&& s[n - 14] == '-' && s[n - 13] == 'o' && s[n - 12] == 'f' && s[n - 11] == '-'
    &&& all_decimal(s.subrange(n - 10, n - 5))
    &&& s[n - 5] == '.' && s[n - 4] == 'g' && s[n - 3] == 'g' && s[n - 2] == 'u' && s[n - 1] == 'f'
    &&& forall|k: int| 0 <= k < n - 20 ==> s[k] != '\n'
}

/// The declared total of parts: the value of the second numeral when it is
/// written in ASCII digits (what `str::parse` reads), 0 otherwise.
pub open spec fn declared_total(field: Seq<char>) -> nat {
    if all_digits(field) { digits_value(field) } else { 0 }
}

/// The series that a file name belongs to: its base name and declared total
/// of parts.
pub open spec fn series_key(s: Seq<char>) -> Option<(Seq<char>, nat)> {
    let n = s.len() as int;
    if is_series_name(s) {
        Some((s.subrange(0, n - 20), declared_total(s.subrange(n - 10, n - 5))))
    } else {
        None
    }
}

fn digits_in(v: &Vec<char>, from: usize, to: usize) -> (r: bool)
    requires
        from <= to <= v@.len(),
    ensures
        r == all_digits(v@.subrange(from as int, to as int)),
{
    let mut k: usize = from;
    while k < to
        invariant
            from <= k <= to <= v@.len(),
            all_digits(v@.subrange(from as int, k as int)),
        decreases to - k,
    {
        if !('0' <= v[k] && v[k] <= '9') {
            assert(v@.subrange(from as int, to as int)[k - from] == v@[k as int]);
            assert(!is_digit(v@.subrange(from as int, to as int)[k - from]));
            return false;
        }
        assert forall|j: int| 0 <= j < k + 1 - from implies #[trigger] is_digit(
            v@.subrange(from as int, k + 1)[j],
        ) by {
            if j < k - from {
                assert(v@.subrange(from as int, k + 1)[j] == v@.subrange(from as int, k as int)[j]);
            }
        }
        k = k + 1;
    }
    true
}

fn decimal_in(v: &Vec<char>, from: usize, to: usize) -> (r: bool)
    requires
        from <= to <= v@.len(),
    ensures
        r == all_decimal(v@.subrange(from as int, to as int)),
{
    let mut k: usize = from;
    while k < to
        invariant
            from <= k <= to <= v@.len(),
            all_decimal(v@.subrange(from as int, k as int)),
        decreases to - k,
    {
        if !is_decimal_digit(v[k]) {
            assert(v@.subrange(from as int, to as int)[k - from] == v@[k as int]);
            assert(!decimal_digit_of(v@.subrange(from as int, to as int)[k - from]));
            return false;
        }
        assert forall|j: int| 0 <= j < k + 1 - from implies #[trigger] decimal_digit_of(
            v@.subrange(from as int, k + 1)[j],
        ) by {
            if j < k - from {
                assert(v@.subrange(from as int, k + 1)[j] == v@.subrange(from as int, k as int)[j]);
            }
        }
        k = k + 1;
    }
    true
}

fn five_digit_value(v: &Vec<char>, from: usize) -> (r: usize)
    requires
        from + 5 <= v.len(),
        all_digits(v@.subrange(from as int, from + 5)),
    ensures
        r == digits_value(v@.subrange(from as int, from + 5)),
{
    let mut r: usize = 0;
    let mut k: usize = from;
    let end: usize = from + 5;
    while k < end
        invariant
            end == from + 5,
            from <= k <= end <= v@.len(),
            all_digits(v@.subrange(from as int, from + 5)),
            r == digits_value(v@.subrange(from as int, k as int)),
            r < pow10((k - from) as nat),
        decreases end - k,
    {
        proof {
            lemma_pow10_bound((k + 1 - from) as nat);
        }
        let ghost pre = v@.subrange(from as int, k as int);
        let ghost next = v@.subrange(from as int, k + 1);
        assert(next.drop_last() =~= pre);
        assert(is_digit(v@.subrange(from as int, from + 5)[k - from]));
        let d = (v[k] as u32 - '0' as u32) as usize;
        assert(pow10((k + 1 - from) as nat) == 10 * pow10((k - from) as nat));
        r = r * 10 + d;
        k = k + 1;
    }
    r
}

proof fn lemma_pow10_bound(j: nat)
    requires
        j <= 5,
    ensures
        pow10(j) <= 100000,
{
    reveal_with_fuel(pow10, 6);
}

spec fn pow10(n: nat) -> nat
    decreases n,
{
    if n == 0 { 1 } else { 10 * pow10((n - 1) as nat) }
}

/// Reads a file name as a part of a series: returns its base name and
/// declared total of parts, or `None` when the name does not follow the
/// pattern.
pub fn parse_series_name(name: &str) -> (r: Option<(String, usize)>)
    ensures
        r is None <==> series_key(name@) is None,
        r matches Some(p) ==> series_key(name@) == Some((p.0@, p.1 as nat)),
        key_view(r) == series_key(name@),
{
    let v = to_chars(name);
    let n = v.len();
    if n < SERIES_TAIL_LEN {
        return None;
    }
    let ok = v[n - 20] == '-' && decimal_in(&v, n - 19, n - 14) && v[n - 14] == '-' && v[n - 13]
        == 'o' && v[n - 12] == 'f' && v[n - 11] == '-' && decimal_in(&v, n - 10, n - 5) && v[n - 5]
        == '.' && v[n - 4] == 'g' && v[n - 3] == 'g' && v[n - 2] == 'u' && v[n - 1] == 'f';
    if !ok {
        assert(!is_series_name(name@));
        return None;
    }
    let mut k: usize = 0;
    while k < n - 20
        invariant
            n == v@.len(),
            v@ == name@,
            n >= 20,
            k <= n - 20,
            forall|j: int| 0 <= j < k ==> v@[j] != '\n',
        decreases n - 20 - k,
    {
        if v[k] == '\n' {
            assert(name@[k as int] == '\n');
            return None;
        }
        k = k + 1;
    }
    let base = sub_chars(&v, 0, n - 20);
    let total = if digits_in(&v, n - 10, n - 5) {
        five_digit_value(&v, n - 10)
    } else {
        0
    };
    Some((string_of(&base), total))
}


/// The abstract value of a parsed series key.
pub open spec fn key_view(o: Option<(String, usize)>) -> Option<(Seq<char>, nat)> {
    match o {
        Some(p) => Some((p.0@, p.1 as nat)),
        None => None,
    }
}

/// Files that are parts of the series `(base, total)`.
pub open spec fn in_series(base: Seq<char>, total: nat) -> spec_fn((HFFile, u64)) -> bool {
    |e: (HFFile, u64)| series_key(e.0.filename@) == Some((base, total))
}

/// Files that belong to no series.
pub open spec fn stands_alone() -> spec_fn((HFFile, u64)) -> bool {
    |e: (HFFile, u64)| series_key(e.0.filename@) is None
}

/// Some of the first `upto` parsed names has the series key `key`.
pub open spec fn key_occurs(parsed: Seq<Option<(String, usize)>>, upto: int, key: (Seq<char>, nat)) -> bool {
    exists|j: int| 0 <= j < upto && #[trigger] key_view(parsed[j]) == Some(key)
}

/// The file `e` is a part of the series `info`.
pub open spec fn belongs_to(e: (HFFile, u64), info: GGUFSeriesInfo) -> bool {
    series_key(e.0.filename@) == Some(info_key(info))
}

pub open spec fn info_key(info: GGUFSeriesInfo) -> (Seq<char>, nat) {
    (info.base_name@, info.total_parts as nat)
}

fn parse_all(files: &Vec<(HFFile, u64)>) -> (r: Vec<Option<(String, usize)>>)
    ensures
        r@.len() == files@.len(),
        forall|i: int| 0 <= i < r@.len() ==> key_view(#[trigger] r@[i]) == series_key(
            files@[i].0.filename@,
        ),
{
    let mut r: Vec<Option<(String, usize)>> = Vec::new();
    let mut i: usize = 0;
    while i < files.len()
        invariant
            i <= files@.len(),
            r@.len() == i,
            forall|j: int| 0 <= j < i ==> key_view(#[trigger] r@[j]) == series_key(
                files@[j].0.filename@,
            ),
        decreases files@.len() - i,
    {
        r.push(parse_series_name(files[i].0.filename.as_str()));
        i = i + 1;
    }
    r
}

fn same_key(o: &Option<(String, usize)>, base: &String, total: usize) -> (r: bool)
    ensures
        r == (key_view(*o) == Some((base@, total as nat))),
{
    match o {
        Some(p) => p.1 == total && p.0 == *base,
        None => false,
    }
}

fn distinct_keys(parsed: &Vec<Option<(String, usize)>>) -> (keys: Vec<(String, usize)>)
    ensures
        forall|a: int, b: int|
            0 <= a < b < keys@.len() ==> (keys@[a].0@, keys@[a].1) != (keys@[b].0@, keys@[b].1),
        forall|j: int|
            0 <= j < parsed@.len() && parsed@[j] is Some ==> exists|g: int|
                0 <= g < keys@.len() && key_view(parsed@[j]) == Some(
                    (#[trigger] keys@[g].0@, keys@[g].1 as nat),
                ),
        forall|g: int|
            0 <= g < keys@.len() ==> key_occurs(
                parsed@,
                parsed@.len() as int,
                (#[trigger] keys@[g].0@, keys@[g].1 as nat),
            ),
{
    let mut keys: Vec<(String, usize)> = Vec::new();
    let mut i: usize = 0;
    while i < parsed.len()
        invariant
            i <= parsed@.len(),
            forall|a: int, b: int|
                0 <= a < b < keys@.len() ==> (keys@[a].0@, keys@[a].1) != (keys@[b].0@, keys@[b].1),
            forall|j: int|
                0 <= j < i && parsed@[j] is Some ==> exists|g: int|
                    0 <= g < keys@.len() && key_view(parsed@[j]) == Some(
                        (#[trigger] keys@[g].0@, keys@[g].1 as nat),
                    ),
            forall|g: int|
                0 <= g < keys@.len() ==> key_occurs(
                    parsed@,
                    i as int,
                    (#[trigger] keys@[g].0@, keys@[g].1 as nat),
                ),
        decreases parsed@.len() - i,
    {
        if let Some(p) = &parsed[i] {
            let mut g: usize = 0;
            let mut found = false;
            while g < keys.len() && !found
                invariant
                    g <= keys@.len(),
                    found ==> g < keys@.len() && (keys@[g as int].0@, keys@[g as int].1) == (
                        p.0@,
                        p.1,
                    ),
                    !found ==> forall|h: int| 0 <= h < g ==> (keys@[h].0@, keys@[h].1) != (p.0@, p.1),
                decreases keys@.len() - g + (if found { 0int } else { 1int }),
            {
                if keys[g].1 == p.1 && keys[g].0 == p.0 {
                    found = true;
                } else {
                    g = g + 1;
                }
            }
            if !found {
                let ghost old_keys = keys@;
                keys.push((p.0.clone(), p.1));
                assert(keys@[old_keys.len() as int].0@ == p.0@);
                assert forall|g: int|
                    0 <= g < keys@.len() implies key_occurs(
                        parsed@,
                        i + 1,
                        (#[trigger] keys@[g].0@, keys@[g].1 as nat),
                    ) by {
                    if g < old_keys.len() {
                        assert(keys@[g] == old_keys[g]);
                    } else {
                        assert(key_view(parsed@[i as int]) == Some(
                            (keys@[g].0@, keys@[g].1 as nat),
                        ));
                    }
                }
                assert forall|j: int|
                    0 <= j < i + 1 && parsed@[j] is Some implies exists|g: int|
                        0 <= g < keys@.len() && key_view(parsed@[j]) == Some(
                            (#[trigger] keys@[g].0@, keys@[g].1 as nat),
                        ) by {
                    if j < i {
                        let g0 = choose|g: int|
                            0 <= g < old_keys.len() && key_view(parsed@[j]) == Some(
                                (#[trigger] old_keys[g].0@, old_keys[g].1 as nat),
                            );
                        assert(keys@[g0] == old_keys[g0]);
                    } else {
                        assert(key_view(parsed@[j]) == Some(
                            (keys@[old_keys.len() as int].0@, keys@[old_keys.len() as int].1 as nat),
                        ));
                    }
                }
            } else {
                assert(keys@[g as int].0@ == p.0@);
                assert(key_view(parsed@[i as int]) == Some(
                    (keys@[g as int].0@, keys@[g as int].1 as nat),
                ));
            }
        }
        i = i + 1;
    }
    keys
}

fn members_of(
    files: &Vec<(HFFile, u64)>,
    parsed: &Vec<Option<(String, usize)>>,
    base: &String,
    total: usize,
) -> (r: GGUFSeriesInfo)
    requires
        parsed@.len() == files@.len(),
        forall|i: int| 0 <= i < parsed@.len() ==> key_view(#[trigger] parsed@[i]) == series_key(
            files@[i].0.filename@,
        ),
        key_occurs(parsed@, parsed@.len() as int, (base@, total as nat)),
    ensures
        r.base_name@ == base@,
        r.total_parts == total,
        r.files@ == files@.filter(in_series(base@, total as nat)),
        r.total_size == capped(sum_sizes(r.files@)),
        r.files@.len() > 0,
{
    let ghost p = in_series(base@, total as nat);
    let mut m: Vec<(HFFile, u64)> = Vec::new();
    let mut size: u64 = 0;
    let mut i: usize = 0;
    while i < files.len()
        invariant
            i <= files@.len(),
            parsed@.len() == files@.len(),
            forall|k: int| 0 <= k < parsed@.len() ==> key_view(#[trigger] parsed@[k]) == series_key(
                files@[k].0.filename@,
            ),
            p == in_series(base@, total as nat),
            m@ == files@.subrange(0, i as int).filter(p),
            size == capped(sum_sizes(m@)),
            key_occurs(parsed@, i as int, (base@, total as nat)) ==> m@.len() > 0,
        decreases files@.len() - i,
    {
        let ghost pre = files@.subrange(0, i as int);
        let ghost next = files@.subrange(0, i + 1);
        assert(next.drop_last() =~= pre);
        assert(next.last() == files@[i as int]);
        reveal(Seq::filter);
        assert(next.filter(p) == (if p(next.last()) {
            pre.filter(p).push(next.last())
        } else {
            pre.filter(p)
        }));
        if same_key(&parsed[i], base, total) {
            proof {
                assert(m@.push(files@[i as int]).drop_last() =~= m@);
            }
            let f = files[i].0.clone();
            m.push((f, files[i].1));
            size = size.saturating_add(files[i].1);
        }
        i = i + 1;
    }
    assert(files@.subrange(0, i as int) =~= files@);
    GGUFSeriesInfo { base_name: base.clone(), total_parts: total, files: m, total_size: size }
}

fn standalone_of(files: &Vec<(HFFile, u64)>, parsed: &Vec<Option<(String, usize)>>) -> (r: Vec<
    (HFFile, u64),
>)
    requires
        parsed@.len() == files@.len(),
        forall|i: int| 0 <= i < parsed@.len() ==> key_view(#[trigger] parsed@[i]) == series_key(
            files@[i].0.filename@,
        ),
    ensures
        r@ == files@.filter(stands_alone()),
{
    let ghost p = stands_alone();
    let mut m: Vec<(HFFile, u64)> = Vec::new();
    let mut i: usize = 0;
    while i < files.len()
        invariant
            i <= files@.len(),
            parsed@.len() == files@.len(),
            forall|k: int| 0 <= k < parsed@.len() ==> key_view(#[trigger] parsed@[k]) == series_key(
                files@[k].0.filename@,
            ),
            p == stands_alone(),
            m@ == files@.subrange(0, i as int).filter(p),
        decreases files@.len() - i,
    {
        let ghost pre = files@.subrange(0, i as int);
        let ghost next = files@.subrange(0, i + 1);
        assert(next.drop_last() =~= pre);
        assert(next.last() == files@[i as int]);
        reveal(Seq::filter);
        assert(next.filter(p) == (if p(next.last()) {
            pre.filter(p).push(next.last())
        } else {
            pre.filter(p)
        }));
        if parsed[i].is_none() {
            let f = files[i].0.clone();
            m.push((f, files[i].1));
        }
        i = i + 1;
    }
    assert(files@.subrange(0, i as int) =~= files@);
    m
}

/// Splits a listing of files with their sizes into series and single files.
/// Each series holds, in listing order, exactly the files whose names give
/// its base name and declared total (at least one), with their summed size
/// held at `u64::MAX`; no two series share both; every file whose name
/// follows the pattern lies in one of them; the single files are the
/// others, in listing order.
pub fn group_by_series(files: &Vec<(HFFile, u64)>) -> (r: (Vec<GGUFSeriesInfo>, Vec<(HFFile, u64)>))
    ensures
        forall|g: int| 0 <= g < r.0@.len() ==> (#[trigger] r.0@[g]).files@ == files@.filter(
            in_series(r.0@[g].base_name@, r.0@[g].total_parts as nat),
        ),
        forall|g: int| 0 <= g < r.0@.len() ==> (#[trigger] r.0@[g]).total_size == capped(
            sum_sizes(r.0@[g].files@),
        ),
        forall|g: int| 0 <= g < r.0@.len() ==> (#[trigger] r.0@[g]).files@.len() > 0,
        forall|a: int, b: int| 0 <= a < b < r.0@.len() ==> info_key(r.0@[a]) != info_key(r.0@[b]),
        forall|i: int|
            0 <= i < files@.len() && (#[trigger] series_key(files@[i].0.filename@)) is Some
                ==> exists|g: int| 0 <= g < r.0@.len() && belongs_to(files@[i], #[trigger] r.0@[g]),
        r.1@ == files@.filter(stands_alone()),
{
    let parsed = parse_all(files);
    let keys = distinct_keys(&parsed);
    let mut groups: Vec<GGUFSeriesInfo> = Vec::new();
    let mut g: usize = 0;
    while g < keys.len()
        invariant
            g <= keys@.len(),
            groups@.len() == g,
            parsed@.len() == files@.len(),
            forall|i: int| 0 <= i < parsed@.len() ==> key_view(#[trigger] parsed@[i]) == series_key(
                files@[i].0.filename@,
            ),
            forall|k: int|
                0 <= k < keys@.len() ==> key_occurs(
                    parsed@,
                    parsed@.len() as int,
                    (#[trigger] keys@[k].0@, keys@[k].1 as nat),
                ),
            forall|h: int| 0 <= h < g ==> info_key(#[trigger] groups@[h]) == (keys@[h].0@, keys@[h].1 as nat),
            forall|h: int| 0 <= h < g ==> (#[trigger] groups@[h]).files@ == files@.filter(
                in_series(groups@[h].base_name@, groups@[h].total_parts as nat),
            ),
            forall|h: int| 0 <= h < g ==> (#[trigger] groups@[h]).total_size == capped(
                sum_sizes(groups@[h].files@),
            ),
            forall|h: int| 0 <= h < g ==> (#[trigger] groups@[h]).files@.len() > 0,
        decreases keys@.len() - g,
    {
        assert(key_occurs(parsed@, parsed@.len() as int, (keys@[g as int].0@, keys@[g as int].1 as nat)));
        let info = members_of(files, &parsed, &keys[g].0, keys[g].1);
        groups.push(info);
        g = g + 1;
    }
    assert forall|i: int|
        0 <= i < files@.len() && (#[trigger] series_key(files@[i].0.filename@)) is Some
            implies exists|h: int| 0 <= h < groups@.len() && belongs_to(files@[i], #[trigger] groups@[h]) by {
        assert(key_view(parsed@[i]) == series_key(files@[i].0.filename@));
        let h = choose|h: int|
            0 <= h < keys@.len() && key_view(parsed@[i]) == Some(
                (#[trigger] keys@[h].0@, keys@[h].1 as nat),
            );
        assert(info_key(groups@[h]) == (keys@[h].0@, keys@[h].1 as nat));
        assert(belongs_to(files@[i], groups@[h]));
    }
    assert forall|a: int, b: int| 0 <= a < b < groups@.len() implies info_key(groups@[a])
        != info_key(groups@[b]) by {
        assert(info_key(groups@[a]) == (keys@[a].0@, keys@[a].1 as nat));
        assert(info_key(groups@[b]) == (keys@[b].0@, keys@[b].1 as nat));
    }
    let singles = standalone_of(files, &parsed);
    let r = (groups, singles);
    assert(r.0@ == groups@);
    r
}

/// The files of one series found in a listing, with their sizes.
pub struct GGUFSeriesInfo {
    pub base_name: String,
    pub total_parts: usize,
    pub files: Vec<(HFFile, u64)>,
    pub total_size: u64,
}

/// One line of the selection menu: a whole series or a single file.
pub enum SelectableGGUFItem {
    Series(GGUFSeriesInfo),
    File(HFFile, u64),
}

/// A sum held at `u64::MAX`.
pub open spec fn capped(n: nat) -> u64 {
    if n <= u64::MAX { n as u64 } else { u64::MAX }
}

/// The sum of the sizes in a list of files.
pub open spec fn sum_sizes(s: Seq<(HFFile, u64)>) -> nat
    decreases s.len(),
{
    if s.len() == 0 {
        0
    } else {
        sum_sizes(s.drop_last()) + s.last().1 as nat
    }
}

/// A series is complete when it holds exactly its declared number of parts,
/// and that number is not zero.
pub open spec fn series_complete(info: GGUFSeriesInfo) -> bool {
    info.files@.len() == info.total_parts && info.total_parts > 0
}

/// The files that an entry of the menu stands for.
pub open spec fn entry_files(item: SelectableGGUFItem) -> Seq<HFFile> {
    match item {
        SelectableGGUFItem::Series(info) => info.files@.map_values(|e: (HFFile, u64)| e.0),
        SelectableGGUFItem::File(f, _) => seq![f],
    }
}

pub open spec fn entry_complete(item: SelectableGGUFItem) -> bool {
    match item {
        SelectableGGUFItem::Series(info) => series_complete(info),
        SelectableGGUFItem::File(_, _) => true,
    }
}

pub open spec fn entry_size(item: SelectableGGUFItem) -> u64 {
    match item {
        SelectableGGUFItem::Series(info) => info.total_size,
        SelectableGGUFItem::File(_, s) => s,
    }
}

/// The menu label of an entry, given the text that shows its size.
pub open spec fn entry_label(item: SelectableGGUFItem, size_text: Seq<char>) -> Seq<char> {
    match item {
        SelectableGGUFItem::Series(info) => {
            let count = decimal_of(info.files@.len());
            let head = "Series: "@ + info.base_name@ + " ("@ + count + " parts, "@ + size_text
                + ")"@;
            if series_complete(info) {
                head
            } else {
                head + " (INCOMPLETE: "@ + count + "/"@ + decimal_of(info.total_parts as nat)
                    + " parts)"@
            }
        },
        SelectableGGUFItem::File(f, _) => "File: "@ + f.filename@ + " ("@ + size_text + ")"@,
    }
}

impl SelectableGGUFItem {
    /// The menu label, with `size_text` standing for the entry's size.
    pub fn display_name(&self, size_text: &str) -> (r: String)
        ensures
            r@ == entry_label(*self, size_text@),
    {
        let mut r = String::new();
        match self {
            SelectableGGUFItem::Series(info) => {
                push_str(&mut r, "Series: ");
                push_str(&mut r, info.base_name.as_str());
                push_str(&mut r, " (");
                push_decimal(&mut r, info.files.len() as u64);
                push_str(&mut r, " parts, ");
                push_str(&mut r, size_text);
                push_str(&mut r, ")");
                if !(info.files.len() == info.total_parts && info.total_parts > 0) {
                    push_str(&mut r, " (INCOMPLETE: ");
                    push_decimal(&mut r, info.files.len() as u64);
                    push_str(&mut r, "/");
                    push_decimal(&mut r, info.total_parts as u64);
                    push_str(&mut r, " parts)");
                }
            },
            SelectableGGUFItem::File(f, _) => {
                push_str(&mut r, "File: ");
                push_str(&mut r, f.filename.as_str());
                push_str(&mut r, " (");
                push_str(&mut r, size_text);
                push_str(&mut r, ")");
            },
        }
        assert(r@ =~= entry_label(*self, size_text@));
        r
    }

    /// Whether choosing this entry yields a usable download.
    pub fn is_complete(&self) -> (r: bool)
        ensures
            r == entry_complete(*self),
    {
        match self {
            SelectableGGUFItem::Series(info) => info.files.len() == info.total_parts
                && info.total_parts > 0,
            SelectableGGUFItem::File(_, _) => true,
        }
    }

    /// The files that this entry expands to.
    pub fn get_files(&self) -> (r: Vec<HFFile>)
        ensures
            r@ == entry_files(*self),
    {
        match self {
            SelectableGGUFItem::Series(info) => {
                let mut r: Vec<HFFile> = Vec::new();
                let mut i: usize = 0;
                while i < info.files.len()
                    invariant
                        i <= info.files@.len(),
                        r@ == info.files@.subrange(0, i as int).map_values(
                            |e: (HFFile, u64)| e.0,
                        ),
                    decreases info.files@.len() - i,
                {
                    r.push(info.files[i].0.clone());
                    i = i + 1;
                    assert(r@ =~= info.files@.subrange(0, i as int).map_values(
                        |e: (HFFile, u64)| e.0,
                    ));
                }
                assert(info.files@.subrange(0, i as int) =~= info.files@);
                r
            },
            SelectableGGUFItem::File(f, _) => {
                let mut r: Vec<HFFile> = Vec::new();
                r.push(f.clone());
                assert(r@ =~= seq![*f]);
                r
            },
        }
    }

    /// The size shown for this entry: a series' summed size, or the file's.
    pub fn size(&self) -> (r: u64)
        ensures
            r == entry_size(*self),
    {
        match self {
            SelectableGGUFItem::Series(info) => info.total_size,
            SelectableGGUFItem::File(_, s) => *s,
        }
    }
}

/// The menu entries: one per series, in the order given, then one per
/// single file.
pub fn to_entries(groups: Vec<GGUFSeriesInfo>, singles: Vec<(HFFile, u64)>) -> (r: Vec<
    SelectableGGUFItem,
>)
    ensures
        r@.len() == groups@.len() + singles@.len(),
        forall|g: int| 0 <= g < groups@.len() ==> r@[g] == SelectableGGUFItem::Series(groups@[g]),
        forall|k: int|
            0 <= k < singles@.len() ==> r@[groups@.len() + k] == SelectableGGUFItem::File(
                singles@[k].0,
                singles@[k].1,
            ),
{
    let ghost og = groups@;
    let ghost os = singles@;
    let mut groups = groups;
    let mut singles = singles;
    let mut r: Vec<SelectableGGUFItem> = Vec::new();
    while groups.len() > 0
        invariant
            r@.len() + groups@.len() == og.len(),
            groups@ == og.subrange(r@.len() as int, og.len() as int),
            forall|g: int| 0 <= g < r@.len() ==> r@[g] == SelectableGGUFItem::Series(og[g]),
        decreases groups@.len(),
    {
        let x = groups.remove(0);
        r.push(SelectableGGUFItem::Series(x));
        assert(groups@ =~= og.subrange(r@.len() as int, og.len() as int));
    }
    while singles.len() > 0
        invariant
            r@.len() >= og.len(),
            r@.len() - og.len() + singles@.len() == os.len(),
            singles@ == os.subrange(r@.len() - og.len(), os.len() as int),
            forall|g: int| 0 <= g < og.len() ==> r@[g] == SelectableGGUFItem::Series(og[g]),
            forall|k: int|
                0 <= k < r@.len() - og.len() ==> r@[og.len() + k] == SelectableGGUFItem::File(
                    os[k].0,
                    os[k].1,
                ),
        decreases singles@.len(),
    {
        let x = singles.remove(0);
        r.push(SelectableGGUFItem::File(x.0, x.1));
        assert(singles@ =~= os.subrange(r@.len() - og.len(), os.len() as int));
    }
    r
}

/// The labels of `items`, each shown with the size text at its position.
pub open spec fn labels_of(items: Seq<SelectableGGUFItem>, size_texts: Seq<String>) -> Seq<
    Seq<char>,
> {
    Seq::new(items.len(), |k: int| entry_label(items[k], size_texts[k]@))
}

/// The selection menu: entries with their labels, sorted by label.
pub struct Menu {
    pub entries: Vec<SelectableGGUFItem>,
    pub labels: Vec<String>,
}

/// Orders the menu by label. `size_texts[k]` is the text that shows the size
/// of `items[k]`. The result lists the entries in the stable sorting order
/// of their labels.
pub fn build_menu(items: Vec<SelectableGGUFItem>, size_texts: &Vec<String>) -> (m: Menu)
    requires
        size_texts@.len() == items@.len(),
    ensures
        m.entries@.len() == items@.len(),
        m.labels@.len() == items@.len(),
        exists|order: Seq<usize>|
            {
                &&& is_permutation(order, items@.len())
                &&& sorted_stably(labels_of(items@, size_texts@), order)
                &&& forall|k: int|
                    0 <= k < order.len() ==> m.entries@[k] == items@[#[trigger] order[k] as int]
                        && m.labels@[k]@ == labels_of(items@, size_texts@)[order[k] as int]
            },
{
    let mut labels: Vec<String> = Vec::new();
    let mut i: usize = 0;
    while i < items.len()
        invariant
            i <= items@.len(),
            size_texts@.len() == items@.len(),
            labels@.len() == i,
            forall|k: int| 0 <= k < i ==> (#[trigger] labels@[k])@ == labels_of(
                items@,
                size_texts@,
            )[k],
        decreases items@.len() - i,
    {
        labels.push(items[i].display_name(size_texts[i].as_str()));
        i = i + 1;
    }
    let ghost lv = labels_of(items@, size_texts@);
    assert(label_views(labels@) =~= lv);
    let order = sort_order(&labels);
    let ghost items_in = items@;
    let ghost labels_in = labels@;
    let entries = arrange(items, &order);
    let sorted_labels = arrange(labels, &order);
    let m = Menu { entries, labels: sorted_labels };
    assert(forall|k: int|
        0 <= k < order@.len() ==> m.entries@[k] == items_in[#[trigger] order@[k] as int]
            && m.labels@[k]@ == lv[order@[k] as int]);
    m
}

/// A (lower-cased) name that ends in `.gguf`.
pub open spec fn has_gguf_suffix(s: Seq<char>) -> bool {
    let n = s.len() as int;
    n >= 5 && s[n - 5] == '.' && s[n - 4] == 'g' && s[n - 3] == 'g' && s[n - 2] == 'u' && s[n - 1]
        == 'f'
}

/// Whether a lower-cased name ends in `.gguf`.
pub fn ends_with_gguf(folded: &str) -> (r: bool)
    ensures
        r == has_gguf_suffix(folded@),
{
    let v = to_chars(folded);
    let n = v.len();
    n >= 5 && v[n - 5] == '.' && v[n - 4] == 'g' && v[n - 3] == 'g' && v[n - 2] == 'u' && v[n - 1]
        == 'f'
}

/// The files of a listing whose name ends in `.gguf`, in any case.
pub open spec fn is_gguf_file() -> spec_fn(HFFile) -> bool {
    |f: HFFile| has_gguf_suffix(lower_of(f.filename@))
}

/// Keeps the model files (`.gguf`, in any case) of a listing, in order.
pub fn filter_gguf(files: Vec<HFFile>) -> (r: Vec<HFFile>)
    ensures
        r@ == files@.filter(is_gguf_file()),
{
    let ghost p = is_gguf_file();
    let mut r: Vec<HFFile> = Vec::new();
    let mut i: usize = 0;
    while i < files.len()
        invariant
            i <= files@.len(),
            p == is_gguf_file(),
            r@ == files@.subrange(0, i as int).filter(p),
        decreases files@.len() - i,
    {
        let ghost pre = files@.subrange(0, i as int);
        let ghost next = files@.subrange(0, i + 1);
        assert(next.drop_last() =~= pre);
        reveal(Seq::filter);
        let folded = lowercase(files[i].filename.as_str());
        if ends_with_gguf(folded.as_str()) {
            r.push(files[i].clone());
        }
        i = i + 1;
    }
    assert(files@.subrange(0, i as int) =~= files@);
    r
}

} // verus!
