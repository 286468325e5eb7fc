//! Picking notes at random: the tag screen that chooses the candidates is
//! exact; how many come back is fixed; which ones is left to chance.

use vstd::prelude::*;

use crate::note::Note;
use crate::workflow::enumerate;

use rand::seq::IndexedRandom;

verus! {

/// The lowercase form of a string, as `str::to_lowercase` defines it; a
/// function of the characters alone.
pub uninterp spec fn lower_of(s: Seq<char>) -> Seq<char>;

/// Relies on str::to_lowercase: the result depends on the characters of
/// the input alone.
#[verifier::external_body]
fn lowercase(s: &str) -> (r: String)
    ensures
        r@ == lower_of(s@),
{
    s.to_lowercase()
}

/// The lowercase form of each string in the list.
pub fn lowercase_all(tags: &Vec<String>) -> (r: Vec<String>)
    ensures
        r@.len() == tags@.len(),
        forall|i: int| 0 <= i < tags@.len() ==> #[trigger] r@[i]@ == lower_of(tags@[i]@),
{
    let mut r: Vec<String> = Vec::new();
    let mut i: usize = 0;
    while i < tags.len()
        invariant
            i <= tags.len(),
            r@.len() == i,
            forall|j: int| 0 <= j < i ==> #[trigger] r@[j]@ == lower_of(tags@[j]@),
        decreases tags.len() - i,
    {
        r.push(lowercase(tags[i].as_str()));
        i = i + 1;
    }
    r
}

/// Some tag of `tags`, lowercased, equals one of the already lowercased
/// strings of `lower`.
pub open spec fn spec_lower_match(lower: Seq<Seq<char>>, tags: Seq<Seq<char>>) -> bool {
    exists|i: int, j: int|
        0 <= i < tags.len() && 0 <= j < lower.len() && lower_of(#[trigger] tags[i])
            == #[trigger] lower[j]
}

/// Whether any tag, lowercased, occurs in the lowercased query list,
/// exactly as `spec_lower_match` describes.
pub fn is_match(lower: &[String], tags: &[String]) -> (r: bool)
    ensures
        r == spec_lower_match(lower.deep_view(), tags.deep_view()),
{
    let mut found = false;
    let mut i: usize = 0;
    while i < tags.len()
        invariant
            i <= tags.len(),
            found ==> spec_lower_match(lower.deep_view(), tags.deep_view()),
            !found ==> forall|a: int, b: int|
                0 <= a < i && 0 <= b < lower.deep_view().len() ==> lower_of(
                    #[trigger] tags.deep_view()[a],
                ) != #[trigger] lower.deep_view()[b],
        decreases tags.len() - i,
    {
        let lowered = lowercase(tags[i].as_str());
        let mut j: usize = 0;
        while j < lower.len()
            invariant
                j <= lower.len(),
                i < tags.len(),
                lowered@ == lower_of(tags.deep_view()[i as int]),
                found ==> spec_lower_match(lower.deep_view(), tags.deep_view()),
                !found ==> forall|b: int|
                    0 <= b < j ==> lower_of(tags.deep_view()[i as int])
                        != #[trigger] lower.deep_view()[b],
                !found ==> forall|a: int, b: int|
                    0 <= a < i && 0 <= b < lower.deep_view().len() ==> lower_of(
                        #[trigger] tags.deep_view()[a],
                    ) != #[trigger] lower.deep_view()[b],
            decreases lower.len() - j,
        {
            if !found && lowered.eq(&lower[j]) {
                found = true;
                proof {
                    assert(lower.deep_view().len() == lower@.len());
                    assert(lower.deep_view()[j as int] == lower@[j as int]@);
                    assert(lower_of(tags.deep_view()[i as int]) == lower.deep_view()[j as int]);
                }
            }
            j = j + 1;
        }
        i = i + 1;
    }
    proof {
        assert(tags.deep_view().len() == tags@.len());
    }
    found
}

/// The tag screen of a random pick: no requested tags admits every note;
/// otherwise the note needs a tag whose lowercase form is requested.
pub open spec fn spec_random_keep(lower: Option<Seq<Seq<char>>>, n: Note) -> bool {
    match lower {
        None => true,
        Some(ls) => match n.tags.deep_view() {
            None => false,
            Some(ts) => spec_lower_match(ls, ts),
        },
    }
}

/// `spec_random_keep` as a predicate over a note.
pub open spec fn random_pred(lower: Option<Seq<Seq<char>>>) -> spec_fn(Note) -> bool {
    |n: Note| spec_random_keep(lower, n)
}

/// Each requested tag lowercased, when any were requested.
pub open spec fn spec_lowered(tags: Option<Seq<Seq<char>>>) -> Option<Seq<Seq<char>>> {
    match tags {
        None => None,
        Some(ts) => Some(ts.map_values(|t: Seq<char>| lower_of(t))),
    }
}

/// The candidates of a random pick over `notes` tagged as `tags` asks:
/// the notes passing the tag screen, enumerated after screening.
pub open spec fn spec_pool(tags: Option<Seq<Seq<char>>>, notes: Seq<Note>) -> Seq<(usize, Note)> {
    enumerate(notes.filter(random_pred(spec_lowered(tags))))
}

/// A parsed request to show `n` notes at random among those carrying one
/// of the given tags.
#[derive(Debug)]
pub struct RandomCommand {
    pub n: usize,
    pub tags: Option<Vec<String>>,
}

impl RandomCommand {
    /// The candidate notes, paired with their positions among the
    /// candidates, exactly as `spec_pool` describes.
    pub fn pool(&self, notes: Vec<Note>) -> (r: Vec<(usize, Note)>)
        ensures
            r@ == spec_pool(self.tags.deep_view(), notes@),
    {
        let ghost orig = notes@;
        let ghost lv = spec_lowered(self.tags.deep_view());
        let lower: Option<Vec<String>> = match &self.tags {
            Some(ts) => {
                let ls = lowercase_all(ts);
                proof {
                    assert(ls.deep_view() =~= lv->Some_0);
                }
                Some(ls)
            },
            None => None,
        };
        let mut notes = notes;
        let len = notes.len();
        let mut pool: Vec<(usize, Note)> = Vec::new();
        let mut i: usize = 0;
        while i < len
            invariant
                i <= len == orig.len(),
                notes@ == orig.skip(i as int),
                lv == spec_lowered(self.tags.deep_view()),
                match lower {
                    None => lv is None,
                    Some(ls) => lv matches Some(l) && ls.deep_view() == l,
                },
                pool@ == enumerate(orig.take(i as int).filter(random_pred(lv))),
            decreases len - i,
        {
            let n = notes.remove(0);
            proof {
                assert(n == orig[i as int]);
                assert(notes@ =~= orig.skip(i as int + 1));
            }
            let keep = match &lower {
                None => true,
                Some(ls) => match &n.tags {
                    None => false,
                    Some(ts) => {
                        let lss = ls.as_slice();
                        let tss = ts.as_slice();
                        let m = is_match(lss, tss);
                        proof {
                            assert(lss.deep_view() =~= ls.deep_view());
                            assert(tss.deep_view() =~= ts.deep_view());
                        }
                        m
                    },
                },
            };
            proof {
                assert(keep == random_pred(lv)(n));
                assert(orig.take(i as int + 1) =~= orig.take(i as int).push(n));
                orig.take(i as int).lemma_filter_push(n, random_pred(lv));
                if keep {
                    let f = orig.take(i as int).filter(random_pred(lv));
                    assert(enumerate(f.push(n)) =~= enumerate(f).push((f.len() as usize, n)));
                    assert(pool@.len() == f.len());
                }
            }
            if keep {
                let pos = pool.len();
                pool.push((pos, n));
            }
            i = i + 1;
        }
        proof {
            assert(orig.take(len as int) =~= orig);
        }
        pool
    }

    /// Draws from the candidates at random: how many come back is fixed —
    /// the requested count, or all candidates if fewer — the drawn pairs
    /// sit at pairwise distinct positions of the pool (so a duplicate-free
    /// pool yields a duplicate-free draw), and each is one of the
    /// candidates; which ones come back, and in what order, is left to
    /// chance.
    pub fn draw(&self, pool: Vec<(usize, Note)>) -> (r: Vec<(usize, Note)>)
        ensures
            r@.len() == if self.n as int <= pool@.len() {
                self.n as int
            } else {
                pool@.len() as int
            },
            r@.to_multiset().subset_of(pool@.to_multiset()),
            forall|k: int| 0 <= k < r@.len() ==> pool@.contains(#[trigger] r@[k]),
            pool@.no_duplicates() ==> r@.no_duplicates(),
    {
        let r = sample_pairs(&pool, self.n);
        proof {
            if pool@.no_duplicates() {
                lemma_no_duplicates_drawn(r@, pool@);
            }
        }
        r
    }
}

/// Law: the candidate pool holds no pair twice — the positions it carries
/// are the distinct post-screening positions. (The length bound keeps the
/// positions representable; every real list satisfies it.)
pub proof fn lemma_pool_no_duplicates(tags: Option<Seq<Seq<char>>>, notes: Seq<Note>)
    requires
        notes.len() <= usize::MAX,
    ensures
        spec_pool(tags, notes).no_duplicates(),
{
    let p = spec_pool(tags, notes);
    notes.lemma_filter_len(random_pred(spec_lowered(tags)));
    assert(p.len() <= notes.len());
    assert forall|i: int, j: int|
        0 <= i < p.len() && 0 <= j < p.len() && i != j implies p[i] != p[j] by {
        assert(p[i].0 as int == i);
        assert(p[j].0 as int == j);
    }
}

/// Law: what is drawn from a duplicate-free pool is itself duplicate-free,
/// since the drawn pairs form a sub-multiset of the pool's.
pub proof fn lemma_no_duplicates_drawn(drawn: Seq<(usize, Note)>, pool: Seq<(usize, Note)>)
    requires
        drawn.to_multiset().subset_of(pool.to_multiset()),
        pool.no_duplicates(),
    ensures
        drawn.no_duplicates(),
{
    pool.lemma_multiset_has_no_duplicates();
    assert forall|x: (usize, Note)|
        drawn.to_multiset().contains(x) implies drawn.to_multiset().count(x) == 1 by {
        assert(drawn.to_multiset().count(x) <= pool.to_multiset().count(x));
        assert(pool.to_multiset().contains(x));
    }
    drawn.lemma_multiset_has_no_duplicates_conv();
}

/// Relies on rand::seq::IndexedRandom::sample with rand::rng(): it draws
/// min(amount, len) elements of the slice, at pairwise distinct positions
/// (its index sampling is without repetition), so what comes back is a
/// sub-multiset of the pool; which positions is left open.
#[verifier::external_body]
fn sample_pairs(pool: &Vec<(usize, Note)>, amount: usize) -> (r: Vec<(usize, Note)>)
    ensures
        r@.len() == if amount as int <= pool@.len() {
            amount as int
        } else {
            pool@.len() as int
        },
        r@.to_multiset().subset_of(pool@.to_multiset()),
        forall|k: int| 0 <= k < r@.len() ==> pool@.contains(#[trigger] r@[k]),
{
    let mut rng = rand::rng();
    pool.as_slice().sample(&mut rng, amount).cloned().collect()
}

} // verus!
