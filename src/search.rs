//! Presentation of model search results.

use vstd::prelude::*;
use crate::text::{char_views, chars_eq, push_str, split_chars, split_on, string_of, to_chars};

verus! {

/// Whether a model requires accepting its conditions before download.
#[derive(Debug, Clone, Copy, PartialEq, Eq, Structural)]
pub enum GatedStatus {
    True,
    Auto,
    Manual,
    False,
}

impl GatedStatus {
    /// The status as shown in a result line; empty for a model that is not
    /// gated.
    pub fn label(&self) -> (r: String)
        ensures
            r@ == match *self {
                GatedStatus::True => "Gated"@,
                GatedStatus::Auto => "Gated (auto)"@,
                GatedStatus::Manual => "Gated (manual)"@,
                GatedStatus::False => Seq::<char>::empty(),
            },
    {
        let mut r = String::new();
        match self {
            GatedStatus::True => push_str(&mut r, "Gated"),
            GatedStatus::Auto => push_str(&mut r, "Gated (auto)"),
            GatedStatus::Manual => push_str(&mut r, "Gated (manual)"),
            GatedStatus::False => {},
        }
        r
    }

    /// The status that a boolean field means.
    pub fn from_flag(gated: bool) -> (r: Self)
        ensures
            r == if gated { GatedStatus::True } else { GatedStatus::False },
    {
        if gated { GatedStatus::True } else { GatedStatus::False }
    }

    /// The status that a (lower-cased) text field means: `auto`, `manual`,
    /// or anything else for not gated.
    pub fn from_text(lowered: &str) -> (r: Self)
        ensures
            r == if lowered@ == "auto"@ {
                GatedStatus::Auto
            } else if lowered@ == "manual"@ {
                GatedStatus::Manual
            } else {
                GatedStatus::False
            },
    {
        let v = to_chars(lowered);
        if chars_eq(v.as_slice(), to_chars("auto").as_slice()) {
            GatedStatus::Auto
        } else if chars_eq(v.as_slice(), to_chars("manual").as_slice()) {
            GatedStatus::Manual
        } else {
            GatedStatus::False
        }
    }
}

/// The author shown for a model: its own field, or the part of its id
/// before the first `/`.
pub fn author_of(author: Option<&str>, model_id: &str) -> (r: String)
    ensures
        r@ == match author {
            Some(a) => a@,
            None => split_on(model_id@, '/')[0],
        },
{
    match author {
        Some(a) => string_of(to_chars(a).as_slice()),
        None => {
            let pieces = split_chars(to_chars(model_id).as_slice(), '/');
            proof {
                crate::text::lemma_split_on_nonempty(model_id@, '/');
            }
            assert(char_views(pieces@)[0] == pieces@[0]@);
            string_of(pieces[0].as_slice())
        },
    }
}

/// The task line of a result: the pipeline tag (`N/A` when absent), then
/// in parentheses `Private` and the gated status, when they apply.
pub open spec fn task_line_of(tag: Option<Seq<char>>, private: bool, gated: GatedStatus) -> Seq<
    char,
> {
    let t = match tag {
        Some(x) => x,
        None => "N/A"@,
    };
    let g = match gated {
        GatedStatus::True => "Gated"@,
        GatedStatus::Auto => "Gated (auto)"@,
        GatedStatus::Manual => "Gated (manual)"@,
        GatedStatus::False => Seq::<char>::empty(),
    };
    if private && gated != GatedStatus::False {
        t + " ("@ + "Private"@ + ", "@ + g + ")"@
    } else if private {
        t + " ("@ + "Private"@ + ")"@
    } else if gated != GatedStatus::False {
        t + " ("@ + g + ")"@
    } else {
        t
    }
}

pub fn task_line(tag: Option<&str>, private: bool, gated: GatedStatus) -> (r: String)
    ensures
        r@ == task_line_of(
            match tag {
                Some(x) => Some(x@),
                None => None,
            },
            private,
            gated,
        ),
{
    let mut r = String::new();
    match tag {
        Some(x) => push_str(&mut r, x),
        None => push_str(&mut r, "N/A"),
    }
    let gated_set = gated != GatedStatus::False;
    if private || gated_set {
        push_str(&mut r, " (");
        if private {
            push_str(&mut r, "Private");
            if gated_set {
                push_str(&mut r, ", ");
            }
        }
        if gated_set {
            let g = gated.label();
            push_str(&mut r, g.as_str());
        }
        push_str(&mut r, ")");
    }
    r
}

/// At most this many tags are shown for a result.
pub const SHOWN_TAGS: usize = 10;

/// The first ten tags, separated by `, `.
pub open spec fn tags_line_of(tags: Seq<Seq<char>>) -> Seq<char>
    decreases tags.len(),
{
    let shown = if tags.len() > 10 { tags.subrange(0, 10) } else { tags };
    joined_comma(shown)
}

pub open spec fn joined_comma(tags: Seq<Seq<char>>) -> Seq<char>
    decreases tags.len(),
{
    if tags.len() == 0 {
        Seq::empty()
    } else if tags.len() == 1 {
        tags[0]
    } else {
        joined_comma(tags.drop_last()) + ", "@ + tags.last()
    }
}

/// The tags line of a result.
pub fn tags_line(tags: &Vec<String>) -> (r: String)
    ensures
        r@ == tags_line_of(tags@.map_values(|t: String| t@)),
{
    let ghost all = tags@.map_values(|t: String| t@);
    let n: usize = if tags.len() > SHOWN_TAGS { SHOWN_TAGS } else { tags.len() };
    let ghost shown = if all.len() > 10 { all.subrange(0, 10) } else { all };
    assert(shown =~= all.subrange(0, n as int));
    let mut r = String::new();
    let mut i: usize = 0;
    while i < n
        invariant
            i <= n <= tags@.len(),
            all == tags@.map_values(|t: String| t@),
            r@ == joined_comma(all.subrange(0, i as int)),
        decreases n - i,
    {
        assert(all.subrange(0, i + 1).drop_last() =~= all.subrange(0, i as int));
        if i > 0 {
            push_str(&mut r, ", ");
        } else {
            assert(all.subrange(0, 1) =~= seq![all[0]]);
        }
        push_str(&mut r, tags[i].as_str());
        i = i + 1;
    }
    r
}

} // verus!
