//! Range expressions: compact `N` / `START:END` syntax for importance
//! levels (`MinMax`, inclusive, over `0..=255`) and list positions
//! (`Index`, half-open, signed, with from-the-end bounds).

use vstd::prelude::*;

use crate::text::count_char;
use crate::text::int_text_val;
use crate::text::lemma_count_char_unique;
use crate::text::lemma_count_char_zero;
use crate::text::parse_i64;
use crate::text::parse_u8;
use crate::text::uint_text_val;
use crate::text::valid_i64_text;
use crate::text::valid_u8_text;

verus! {

/// Why a range expression failed to parse.
#[derive(Debug, Clone, PartialEq, Eq)]
pub enum ParseError {
    /// A colon-free expression that is not a number.
    NotANumber,
    /// A non-empty segment beside a colon that is not a number; carries the
    /// offending segment.
    InvalidBound(String),
    /// More than one colon.
    TooManyColons,
}

/// The abstract outcome of parsing a range expression.
pub enum Parsed<T> {
    Val(T),
    NotANumber,
    InvalidBound(Seq<char>),
    TooManyColons,
}

/// The outcome that a concrete parse result denotes.
pub open spec fn parse_outcome<T>(r: Result<T, ParseError>) -> Parsed<T> {
    match r {
        Ok(v) => Parsed::Val(v),
        Err(ParseError::NotANumber) => Parsed::NotANumber,
        Err(ParseError::InvalidBound(seg)) => Parsed::InvalidBound(seg@),
        Err(ParseError::TooManyColons) => Parsed::TooManyColons,
    }
}

/// An importance-level range over `0..=255`; membership is inclusive on
/// both ends, unlike the half-open `Index` ranges.
#[derive(Debug, Clone, Copy, PartialEq, Eq, Structural)]
pub enum MinMax {
    /// Exactly one level.
    Nth(u8),
    /// All levels between the two bounds, inclusive.
    Between(u8, u8),
}

/// A position range over a list; `Nth` selects one position, `Between`
/// a half-open span. Negative bounds count from the end of the list and
/// are resolved by `calibrate`.
#[derive(Debug, Clone, Copy, PartialEq, Eq, Structural)]
pub enum Index {
    Nth(i64),
    Between(i64, i64),
}

/// What parsing a level range expression yields: the `N` / `LEFT:RIGHT`
/// grammar over `u8`, an omitted left bound meaning 0 and an omitted right
/// bound meaning 255.
pub open spec fn spec_parse_minmax(s: Seq<char>) -> Parsed<MinMax> {
    let nc = count_char(s, ':');
    if nc == 0 {
        if valid_u8_text(s) {
            Parsed::Val(MinMax::Nth(uint_text_val(s) as u8))
        } else {
            Parsed::NotANumber
        }
    } else if nc == 1 {
        let k = choose|k: int| 0 <= k < s.len() && s[k] == ':';
        let left = s.take(k);
        let right = s.skip(k + 1);
        if left.len() > 0 && !valid_u8_text(left) {
            Parsed::InvalidBound(left)
        } else if right.len() > 0 && !valid_u8_text(right) {
            Parsed::InvalidBound(right)
        } else {
            let a = if left.len() == 0 {
                0
            } else {
                uint_text_val(left)
            };
            let b = if right.len() == 0 {
                u8::MAX as int
            } else {
                uint_text_val(right)
            };
            Parsed::Val(MinMax::Between(a as u8, b as u8))
        }
    } else {
        Parsed::TooManyColons
    }
}

/// What parsing a position range expression yields: the same grammar over
/// `i64`, an omitted left bound meaning 0 and an omitted right bound
/// meaning `i64::MAX` (open end).
pub open spec fn spec_parse_index(s: Seq<char>) -> Parsed<Index> {
    let nc = count_char(s, ':');
    if nc == 0 {
        if valid_i64_text(s) {
            Parsed::Val(Index::Nth(int_text_val(s) as i64))
        } else {
            Parsed::NotANumber
        }
    } else if nc == 1 {
        let k = choose|k: int| 0 <= k < s.len() && s[k] == ':';
        let left = s.take(k);
        let right = s.skip(k + 1);
        if left.len() > 0 && !valid_i64_text(left) {
            Parsed::InvalidBound(left)
        } else if right.len() > 0 && !valid_i64_text(right) {
            Parsed::InvalidBound(right)
        } else {
            let a = if left.len() == 0 {
                0
            } else {
                int_text_val(left)
            };
            let b = if right.len() == 0 {
                i64::MAX as int
            } else {
                int_text_val(right)
            };
            Parsed::Val(Index::Between(a as i64, b as i64))
        }
    } else {
        Parsed::TooManyColons
    }
}

/// Counts the colons of `s` and finds the first one.
fn scan_colons(s: &str) -> (r: (usize, usize))
    ensures
        r.0 as int == count_char(s@, ':'),
        r.0 > 0 ==> r.1 < s@.len() && s@[r.1 as int] == ':' && count_char(
            s@.take(r.1 as int),
            ':',
        ) == 0,
{
    let n = s.unicode_len();
    let mut ncolon: usize = 0;
    let mut first: usize = 0;
    let mut i: usize = 0;
    while i < n
        invariant
            i <= n,
            ncolon <= i,
            n == s@.len(),
            ncolon as int == count_char(s@.take(i as int), ':'),
            ncolon > 0 ==> first < i && s@[first as int] == ':' && count_char(
                s@.take(first as int),
                ':',
            ) == 0,
        decreases n - i,
    {
        let c = s.get_char(i);
        proof {
            assert(s@.take(i as int + 1).drop_last() =~= s@.take(i as int));
            assert(s@.take(i as int + 1).last() == s@[i as int]);
        }
        if c == ':' {
            if ncolon == 0 {
                first = i;
            }
            ncolon = ncolon + 1;
        }
        i = i + 1;
    }
    proof {
        assert(s@.take(n as int) =~= s@);
    }
    (ncolon, first)
}

impl MinMax {
    /// Parses a level range expression, exactly as `spec_parse_minmax`
    /// describes.
    pub fn parse(s: &str) -> (r: Result<MinMax, ParseError>)
        ensures
            parse_outcome(r) == spec_parse_minmax(s@),
    {
        let n = s.unicode_len();
        let (ncolon, first) = scan_colons(s);
        if ncolon == 0 {
            match parse_u8(s) {
                Some(v) => Ok(MinMax::Nth(v)),
                None => Err(ParseError::NotANumber),
            }
        } else if ncolon == 1 {
            proof {
                assert(exists|k: int| 0 <= k < s@.len() && s@[k] == ':') by {
                    assert(s@[first as int] == ':');
                }
                let k = choose|k: int| 0 <= k < s@.len() && s@[k] == ':';
                lemma_count_char_unique(s@, ':', first as int);
                assert(k == first as int);
            }
            let left = s.substring_char(0, first);
            let right = s.substring_char(first + 1, n);
            let a: u8;
            if left.unicode_len() == 0 {
                a = 0;
            } else {
                match parse_u8(left) {
                    Some(v) => {
                        a = v;
                    },
                    None => {
                        return Err(ParseError::InvalidBound(left.to_owned()));
                    },
                }
            }
            let b: u8;
            if right.unicode_len() == 0 {
                b = u8::MAX;
            } else {
                match parse_u8(right) {
                    Some(v) => {
                        b = v;
                    },
                    None => {
                        return Err(ParseError::InvalidBound(right.to_owned()));
                    },
                }
            }
            Ok(MinMax::Between(a, b))
        } else {
            Err(ParseError::TooManyColons)
        }
    }

    /// Whether `n` lies in this level range; both ends inclusive.
    pub fn in_range(&self, n: u8) -> (r: bool)
        ensures
            r == spec_minmax_in_range(*self, n),
    {
        match self {
            MinMax::Nth(x) => *x == n,
            MinMax::Between(min, max) => n >= *min && n <= *max,
        }
    }
}

/// Inclusive membership of a level in a level range.
pub open spec fn spec_minmax_in_range(m: MinMax, n: u8) -> bool {
    match m {
        MinMax::Nth(x) => x == n,
        MinMax::Between(min, max) => min <= n && n <= max,
    }
}

impl Index {
    /// Parses a position range expression, exactly as `spec_parse_index`
    /// describes.
    pub fn parse(s: &str) -> (r: Result<Index, ParseError>)
        ensures
            parse_outcome(r) == spec_parse_index(s@),
    {
        let n = s.unicode_len();
        let (ncolon, first) = scan_colons(s);
        if ncolon == 0 {
            match parse_i64(s) {
                Some(v) => Ok(Index::Nth(v)),
                None => Err(ParseError::NotANumber),
            }
        } else if ncolon == 1 {
            proof {
                assert(exists|k: int| 0 <= k < s@.len() && s@[k] == ':') by {
                    assert(s@[first as int] == ':');
                }
                let k = choose|k: int| 0 <= k < s@.len() && s@[k] == ':';
                lemma_count_char_unique(s@, ':', first as int);
                assert(k == first as int);
            }
            let left = s.substring_char(0, first);
            let right = s.substring_char(first + 1, n);
            let a: i64;
            if left.unicode_len() == 0 {
                a = 0;
            } else {
                match parse_i64(left) {
                    Some(v) => {
                        a = v;
                    },
                    None => {
                        return Err(ParseError::InvalidBound(left.to_owned()));
                    },
                }
            }
            let b: i64;
            if right.unicode_len() == 0 {
                b = i64::MAX;
            } else {
                match parse_i64(right) {
                    Some(v) => {
                        b = v;
                    },
                    None => {
                        return Err(ParseError::InvalidBound(right.to_owned()));
                    },
                }
            }
            Ok(Index::Between(a, b))
        } else {
            Err(ParseError::TooManyColons)
        }
    }
}

/// The length actually used for calibration: the collection length, capped
/// at `i64::MAX` so that it fits the bounds' type.
pub open spec fn cal_len(len: nat) -> int {
    if len > i64::MAX as nat {
        i64::MAX as int
    } else {
        len as int
    }
}

/// Calibration of a position range against a collection length `len`:
/// negative bounds are offset by `len`; span bounds above `len` are clamped
/// to `len`; a bound still negative after offsetting turns the whole range
/// into the out-of-range sentinel `Nth(i64::MAX)`, which no position below
/// `len` matches.
pub open spec fn spec_calibrate(x: Index, len: int) -> Index {
    match x {
        Index::Nth(n) => if n < 0 {
            if n + len < 0 {
                Index::Nth(i64::MAX)
            } else {
                Index::Nth((n + len) as i64)
            }
        } else {
            x
        },
        Index::Between(a, b) => {
            let a2 = if a < 0 {
                a + len
            } else if a > len {
                len
            } else {
                a as int
            };
            if a2 < 0 {
                Index::Nth(i64::MAX)
            } else {
                let b2 = if b < 0 {
                    b + len
                } else if b > len {
                    len
                } else {
                    b as int
                };
                if b2 < 0 {
                    Index::Nth(i64::MAX)
                } else {
                    Index::Between(a2 as i64, b2 as i64)
                }
            }
        },
    }
}

/// Half-open membership of a position in a position range: `Nth(v)`
/// matches exactly `v`; `Between(a, b)` matches `min(a,b) <= n < max(a,b)`,
/// whichever order the bounds were written in.
pub open spec fn spec_in_range(x: Index, n: int) -> bool {
    match x {
        Index::Nth(v) => n == v as int,
        Index::Between(a, b) => {
            let lo = if a <= b {
                a as int
            } else {
                b as int
            };
            let hi = if a <= b {
                b as int
            } else {
                a as int
            };
            lo <= n < hi
        },
    }
}

/// The contiguous sub-range that a position range denotes on a list of
/// length `len`: sign-normalized, reordered, clamped half-open bounds, or
/// `None` when the selection is empty or degenerate. A `Some` sub-range is
/// never empty.
pub open spec fn spec_slice_bounds(x: Index, len: int) -> Option<(int, int)> {
    match x {
        Index::Nth(n) => {
            let v = if n < 0 {
                n + len
            } else {
                n as int
            };
            if 0 <= v < len {
                Some((v, v + 1))
            } else {
                None
            }
        },
        Index::Between(a, b) => {
            let a2 = if a < 0 {
                a + len
            } else {
                a as int
            };
            let b2 = if b < 0 {
                b + len
            } else {
                b as int
            };
            if a2 == b2 {
                None
            } else {
                let lo = if a2 <= b2 {
                    a2
                } else {
                    b2
                };
                let hi = if a2 <= b2 {
                    b2
                } else {
                    a2
                };
                if lo >= len || hi <= 0 {
                    None
                } else {
                    let lo2 = if lo < 0 {
                        0
                    } else {
                        lo
                    };
                    let hi2 = if hi > len {
                        len
                    } else {
                        hi
                    };
                    if hi2 <= lo2 {
                        None
                    } else {
                        Some((lo2, hi2))
                    }
                }
            }
        },
    }
}

/// A span written with its smaller bound first displays newest-first, i.e.
/// reversed with respect to the storage order; a single position does not.
pub open spec fn spec_is_reversed(x: Index) -> bool {
    match x {
        Index::Nth(_) => false,
        Index::Between(a, b) => a < b,
    }
}

/// The canonical text of a position range: `N` for `Nth`, `A:B` for
/// `Between`.
pub open spec fn spec_index_text(x: Index) -> Seq<char> {
    match x {
        Index::Nth(n) => crate::text::int_to_text(n as int),
        Index::Between(a, b) => crate::text::int_to_text(a as int) + seq![':']
            + crate::text::int_to_text(b as int),
    }
}

impl Index {
    /// Resolves negative (from-the-end) bounds against the collection
    /// length and clamps span bounds, exactly as `spec_calibrate`
    /// describes; calibrating again with the same length changes nothing.
    pub fn calibrate(&mut self, len: usize)
        ensures
            *final(self) == spec_calibrate(*old(self), cal_len(len as nat)),
    {
        let len_i: i64 = if len as u64 > i64::MAX as u64 {
            i64::MAX
        } else {
            len as i64
        };
        match *self {
            Index::Nth(n) => {
                if n < 0 {
                    if n + len_i < 0 {
                        *self = Index::Nth(i64::MAX);
                    } else {
                        *self = Index::Nth(n + len_i);
                    }
                }
            },
            Index::Between(a, b) => {
                let a2 = if a < 0 {
                    a + len_i
                } else if a > len_i {
                    len_i
                } else {
                    a
                };
                if a2 < 0 {
                    *self = Index::Nth(i64::MAX);
                    return ;
                }
                let b2 = if b < 0 {
                    b + len_i
                } else if b > len_i {
                    len_i
                } else {
                    b
                };
                if b2 < 0 {
                    *self = Index::Nth(i64::MAX);
                } else {
                    *self = Index::Between(a2, b2);
                }
            },
        }
    }

    /// Whether position `n` lies in this range, exactly as `spec_in_range`
    /// describes: half-open, bounds in either order. Meaningful after
    /// calibration.
    pub fn in_range(&self, n: i64) -> (r: bool)
        ensures
            r == spec_in_range(*self, n as int),
    {
        match self {
            Index::Nth(x) => *x == n,
            Index::Between(a, b) => {
                let lo = if *a <= *b {
                    *a
                } else {
                    *b
                };
                let hi = if *a <= *b {
                    *b
                } else {
                    *a
                };
                lo <= n && n < hi
            },
        }
    }

    /// The half-open bounds this range denotes on a list of length `len`,
    /// exactly as `spec_slice_bounds` describes.
    pub fn slice_bounds(&self, len: usize) -> (r: Option<(usize, usize)>)
        requires
            len <= i64::MAX,
        ensures
            match spec_slice_bounds(*self, len as int) {
                Some(b) => r matches Some(p) && p.0 as int == b.0 && p.1 as int == b.1 && p.0
                    < p.1 <= len,
                None => r is None,
            },
    {
        let len_i = len as i64;
        match self {
            Index::Nth(n) => {
                let v = if *n < 0 {
                    *n + len_i
                } else {
                    *n
                };
                if 0 <= v && v < len_i {
                    Some((v as usize, v as usize + 1))
                } else {
                    None
                }
            },
            Index::Between(a, b) => {
                let a2 = if *a < 0 {
                    *a + len_i
                } else {
                    *a
                };
                let b2 = if *b < 0 {
                    *b + len_i
                } else {
                    *b
                };
                if a2 == b2 {
                    return None;
                }
                let lo = if a2 <= b2 {
                    a2
                } else {
                    b2
                };
                let hi = if a2 <= b2 {
                    b2
                } else {
                    a2
                };
                if lo >= len_i || hi <= 0 {
                    return None;
                }
                let lo2 = if lo < 0 {
                    0
                } else {
                    lo
                };
                let hi2 = if hi > len_i {
                    len_i
                } else {
                    hi
                };
                if hi2 <= lo2 {
                    return None;
                }
                Some((lo2 as usize, hi2 as usize))
            },
        }
    }

    /// The contiguous sub-slice this range denotes, exactly as
    /// `spec_slice_bounds` describes; `None` when the selection is empty,
    /// so a returned sub-slice is never empty.
    pub fn slice<'a, T>(&self, sl: &'a [T]) -> (r: Option<&'a [T]>)
        requires
            sl@.len() <= i64::MAX,
        ensures
            match spec_slice_bounds(*self, sl@.len() as int) {
                Some(b) => r matches Some(sub) && sub@ == sl@.subrange(b.0, b.1),
                None => r is None,
            },
    {
        match self.slice_bounds(sl.len()) {
            Some((lo, hi)) => Some(vstd::slice::slice_subrange(sl, lo, hi)),
            None => None,
        }
    }

    /// Whether results should display reversed, exactly as
    /// `spec_is_reversed` describes: it reads the bounds as this value
    /// holds them, and the listing workflow asks before calibration, so
    /// the answer speaks of the bounds as originally written.
    pub fn is_reversed(&self) -> (r: bool)
        ensures
            r == spec_is_reversed(*self),
    {
        match self {
            Index::Nth(_) => false,
            Index::Between(a, b) => *a < *b,
        }
    }

    /// Formats this range as its canonical text, which `parse` reads back
    /// to the same value.
    pub fn display(&self) -> (r: String)
        ensures
            r@ == spec_index_text(*self),
    {
        match self {
            Index::Nth(n) => crate::text::format_i64(*n),
            Index::Between(a, b) => {
                let mut s = crate::text::format_i64(*a);
                s.append(":");
                proof {
                    reveal_strlit(":");
                    assert(s@ =~= crate::text::int_to_text(*a as int) + seq![':']);
                }
                let t = crate::text::format_i64(*b);
                s.append(t.as_str());
                s
            },
        }
    }
}

impl Default for Index {
    /// The whole-collection range `0:` (everything from the start on).
    fn default() -> (r: Self)
        ensures
            r == Index::Between(0, i64::MAX),
    {
        Index::Between(0, i64::MAX)
    }
}

/// Law: formatting a position range and parsing the text back yields the
/// same value, for every `Nth` and `Between`.
pub proof fn lemma_index_text_round_trip(x: Index)
    ensures
        spec_parse_index(spec_index_text(x)) == Parsed::Val::<Index>(x),
{
    match x {
        Index::Nth(n) => {
            let s = spec_index_text(x);
            crate::text::lemma_int_to_text_valid(n);
            lemma_count_char_zero(s, ':');
            assert(forall|i: int| 0 <= i < s.len() ==> #[trigger] s[i] != ':');
            assert(count_char(s, ':') == 0);
            assert(int_text_val(s) as i64 == n);
        },
        Index::Between(a, b) => {
            let ta = crate::text::int_to_text(a as int);
            let tb = crate::text::int_to_text(b as int);
            let s = spec_index_text(x);
            crate::text::lemma_int_to_text_valid(a);
            crate::text::lemma_int_to_text_valid(b);
            lemma_count_char_zero(ta, ':');
            lemma_count_char_zero(tb, ':');
            crate::text::lemma_count_char_concat(ta, seq![':'], ':');
            crate::text::lemma_count_char_concat(ta + seq![':'], tb, ':');
            assert(seq![':'].drop_last() =~= Seq::<char>::empty());
            assert(count_char(Seq::<char>::empty(), ':') == 0);
            assert(count_char(seq![':'], ':') == 1);
            assert(count_char(s, ':') == 1);
            let ka = ta.len() as int;
            assert(s[ka] == ':');
            let k = choose|k: int| 0 <= k < s.len() && s[k] == ':';
            lemma_count_char_unique(s, ':', ka);
            assert(k == ka);
            assert(s.take(ka) =~= ta);
            assert(s.skip(ka + 1) =~= tb);
            assert(int_text_val(ta) as i64 == a);
            assert(int_text_val(tb) as i64 == b);
        },
    }
}

/// Law: calibration is idempotent — calibrating an already calibrated
/// range with the same length changes nothing.
pub proof fn lemma_calibrate_idempotent(x: Index, len: int)
    requires
        0 <= len <= i64::MAX,
    ensures
        spec_calibrate(spec_calibrate(x, len), len) == spec_calibrate(x, len),
{
}

/// Law: after calibration against `len`, every position a range matches is
/// at least 0, and a `Between` range matches only positions below `len`.
/// (An `Nth` above the length is left as written and still matches that
/// one out-of-range position.)
pub proof fn lemma_calibrated_in_range(x: Index, len: int, i: int)
    requires
        0 <= len <= i64::MAX,
    ensures
        spec_in_range(spec_calibrate(x, len), i) ==> 0 <= i,
        spec_calibrate(x, len) is Between && spec_in_range(spec_calibrate(x, len), i) ==> i < len,
{
}

/// Law: a degenerate span selects nothing, whatever the collection length:
/// it denotes no sub-range, and after calibration it matches no position
/// of the collection.
pub proof fn lemma_degenerate_span(a: i64, len: int, i: int)
    requires
        0 <= len <= i64::MAX,
        0 <= i < len,
    ensures
        spec_slice_bounds(Index::Between(a, a), len) is None,
        !spec_in_range(spec_calibrate(Index::Between(a, a), len), i),
{
}

/// Accepts exactly the strings that `Index::parse` accepts; on failure it
/// hands back the same error for the caller to format.
pub fn validate_index(s: &str) -> (r: Result<(), ParseError>)
    ensures
        r is Ok <==> spec_parse_index(s@) is Val,
        r matches Err(e) ==> parse_outcome(Err::<Index, ParseError>(e)) == spec_parse_index(s@),
{
    match Index::parse(s) {
        Ok(_) => Ok(()),
        Err(e) => Err(e),
    }
}

/// Accepts exactly the strings that `MinMax::parse` accepts; on failure it
/// hands back the same error for the caller to format.
pub fn validate_minmax(s: &str) -> (r: Result<(), ParseError>)
    ensures
        r is Ok <==> spec_parse_minmax(s@) is Val,
        r matches Err(e) ==> parse_outcome(Err::<MinMax, ParseError>(e)) == spec_parse_minmax(s@),
{
    match MinMax::parse(s) {
        Ok(_) => Ok(()),
        Err(e) => Err(e),
    }
}

} // verus!
