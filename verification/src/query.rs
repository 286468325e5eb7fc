//! Note filtering: a conjunction of independent optional predicates over
//! title glob patterns (match any, case-insensitively), an importance-level
//! range, and a tag list (match any, case-sensitively).

use vstd::prelude::*;

use crate::index::spec_minmax_in_range;
use crate::index::MinMax;
use crate::note::Note;

verus! {

/// Whether a glob pattern matches a text case-insensitively (`*` any run
/// of characters, `?` one character, no path special-casing); a function
/// of the two strings alone. A string that is not a well-formed pattern
/// matches nothing.
pub uninterp spec fn glob_match_ci(pattern: Seq<char>, text: Seq<char>) -> bool;

/// Relies on glob::Pattern::new and glob::Pattern::matches_with, with
/// case-insensitive match options and no literal-separator special-casing:
/// whether the pattern matches depends on the pattern and the text alone,
/// and a string that Pattern::new rejects matches nothing.
#[verifier::external_body]
fn glob_matches_ci(pattern: &String, text: &String) -> (r: bool)
    ensures
        r == glob_match_ci(pattern@, text@),
{
    match glob::Pattern::new(pattern.as_str()) {
        Ok(p) => p.matches_with(
            text.as_str(),
            glob::MatchOptions {
                case_sensitive: false,
                require_literal_separator: false,
                require_literal_leading_dot: false,
            },
        ),
        Err(_) => false,
    }
}

/// A conjunction of optional predicates over a note. Each absent predicate
/// is trivially satisfied.
#[derive(Debug)]
pub struct Filter {
    /// Title glob patterns; the note's title must match at least one.
    pub titles: Option<Vec<String>>,
    /// Importance-level range; an unset note level counts as 0 here.
    pub lvl: Option<MinMax>,
    /// Tags; at least one must equal (case-sensitively) a tag of the note.
    pub tags: Option<Vec<String>>,
}

impl Default for Filter {
    /// The empty filter, which matches every note.
    fn default() -> (r: Self)
        ensures
            spec_is_empty(r),
    {
        Filter { titles: None, lvl: None, tags: None }
    }
}

/// Some pattern of `ps` matches the title case-insensitively.
pub open spec fn spec_any_title_match(ps: Seq<Seq<char>>, title: Seq<char>) -> bool {
    exists|i: int| 0 <= i < ps.len() && #[trigger] glob_match_ci(ps[i], title)
}

/// The title predicate: absent, or some pattern matches the title
/// case-insensitively.
pub open spec fn spec_title_match(titles: Option<Seq<Seq<char>>>, title: Seq<char>) -> bool {
    match titles {
        None => true,
        Some(ps) => spec_any_title_match(ps, title),
    }
}

/// The level predicate: absent, or the note's level (0 when unset) lies in
/// the range, inclusive on both ends.
pub open spec fn spec_level_match(lvl: Option<MinMax>, level: Option<u8>) -> bool {
    match lvl {
        None => true,
        Some(m) => spec_minmax_in_range(
            m,
            match level {
                None => 0,
                Some(v) => v,
            },
        ),
    }
}

/// The tag predicate: absent, or some requested tag equals, character for
/// character, some tag of the note; a note without tags never matches a
/// present tag filter.
pub open spec fn spec_tag_match(tags: Option<Seq<Seq<char>>>, note_tags: Option<Seq<Seq<char>>>) -> bool {
    match tags {
        None => true,
        Some(qs) => match note_tags {
            None => false,
            Some(ts) => spec_any_tag_shared(qs, ts),
        },
    }
}

/// Some requested tag equals, character for character, some note tag.
pub open spec fn spec_any_tag_shared(qs: Seq<Seq<char>>, ts: Seq<Seq<char>>) -> bool {
    exists|i: int, j: int| 0 <= i < qs.len() && 0 <= j < ts.len() && #[trigger] qs[i] == #[trigger] ts[j]
}

/// The whole filter: the conjunction of the three predicates.
pub open spec fn spec_is_match(f: Filter, n: Note) -> bool {
    &&& spec_title_match(f.titles.deep_view(), n.title@)
    &&& spec_level_match(f.lvl, n.lvl)
    &&& spec_tag_match(f.tags.deep_view(), n.tags.deep_view())
}

/// No predicate at all was supplied.
pub open spec fn spec_is_empty(f: Filter) -> bool {
    f.titles is None && f.lvl is None && f.tags is None
}

impl Filter {
    /// Whether the note satisfies every present predicate, exactly as
    /// `spec_is_match` describes.
    pub fn is_match(&self, n: &Note) -> (r: bool)
        ensures
            r == spec_is_match(*self, *n),
    {
        if let Some(titles) = &self.titles {
            let mut found = false;
            let mut i: usize = 0;
            while i < titles.len()
                invariant
                    i <= titles.len(),
                    found ==> spec_title_match(Some(titles.deep_view()), n.title@),
                    !found ==> forall|j: int|
                        0 <= j < i ==> !glob_match_ci(#[trigger] titles.deep_view()[j], n.title@),
                decreases titles.len() - i,
            {
                if !found && glob_matches_ci(&titles[i], &n.title) {
                    found = true;
                    proof {
                        assert(titles.deep_view().len() == titles@.len());
                        assert(glob_match_ci(titles.deep_view()[i as int], n.title@));
                    }
                }
                i = i + 1;
            }
            if !found {
                return false;
            }
        }
        if let Some(lvl) = &self.lvl {
            let level = match &n.lvl {
                Some(v) => *v,
                None => 0,
            };
            if !lvl.in_range(level) {
                return false;
            }
        }
        if let Some(tags) = &self.tags {
            match &n.tags {
                None => {
                    return false;
                },
                Some(note_tags) => {
                    let mut found = false;
                    let mut i: usize = 0;
                    while i < tags.len()
                        invariant
                            i <= tags.len(),
                            found ==> spec_tag_match(
                                Some(tags.deep_view()),
                                Some(note_tags.deep_view()),
                            ),
                            !found ==> forall|a: int, b: int|
                                0 <= a < i && 0 <= b < note_tags.deep_view().len()
                                    ==> #[trigger] tags.deep_view()[a]
                                    != #[trigger] note_tags.deep_view()[b],
                        decreases tags.len() - i,
                    {
                        let mut j: usize = 0;
                        while j < note_tags.len()
                            invariant
                                j <= note_tags.len(),
                                i < tags.len(),
                                found ==> spec_tag_match(
                                    Some(tags.deep_view()),
                                    Some(note_tags.deep_view()),
                                ),
                                !found ==> forall|b: int|
                                    0 <= b < j ==> tags.deep_view()[i as int]
                                        != #[trigger] note_tags.deep_view()[b],
                                !found ==> forall|a: int, b: int|
                                    0 <= a < i && 0 <= b < note_tags.deep_view().len()
                                        ==> #[trigger] tags.deep_view()[a]
                                        != #[trigger] note_tags.deep_view()[b],
                            decreases note_tags.len() - j,
                        {
                            if !found && tags[i].eq(&note_tags[j]) {
                                found = true;
                                proof {
                                    assert(tags.deep_view().len() == tags@.len());
                                    assert(note_tags.deep_view().len() == note_tags@.len());
                                    assert(tags.deep_view()[i as int]
                                        == note_tags.deep_view()[j as int]);
                                }
                            }
                            j = j + 1;
                        }
                        i = i + 1;
                    }
                    if !found {
                        return false;
                    }
                },
            }
        }
        true
    }

    /// Whether no predicate was supplied at all; an empty filter matches
    /// everything, and callers deciding what to remove must check this
    /// before treating a match as a reason to delete.
    pub fn is_empty(&self) -> (r: bool)
        ensures
            r == spec_is_empty(*self),
    {
        self.titles.is_none() && self.lvl.is_none() && self.tags.is_none()
    }
}

/// Law: an empty filter matches every note, whatever the note holds.
pub proof fn lemma_empty_filter_matches_all(f: Filter, n: Note)
    requires
        spec_is_empty(f),
    ensures
        spec_is_match(f, n),
{
}

} // verus!
