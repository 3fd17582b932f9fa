//! The anchored shapes numeric text can take, and their matchers.
//!
//! Each shape stands for a regular language over characters, anchored to the
//! whole input: an optional sign, a run of digits, and — depending on the
//! shape — a decimal marker with fractional digits and/or grouping
//! separators followed by blocks of exactly three digits.

use vstd::prelude::*;
use crate::separator::Separator;
use crate::text::chars_of;

verus! {

/// `c` is a decimal digit.
pub open spec fn is_ascii_digit(c: char) -> bool {
    '0' <= c && c <= '9'
}

/// `c` is a leading sign character.
pub open spec fn is_sign_char(c: char) -> bool {
    c == '+' || c == '-'
}

/// Every character of `s` is a decimal digit.
pub open spec fn all_digits(s: Seq<char>) -> bool {
    forall|i: int| 0 <= i < s.len() ==> is_ascii_digit(#[trigger] s[i])
}

/// `s` with one leading sign character removed, if there is one.
pub open spec fn unsigned_part(s: Seq<char>) -> Seq<char> {
    if s.len() > 0 && is_sign_char(s[0]) {
        s.skip(1)
    } else {
        s
    }
}

/// The length of the longest digit-only prefix of `s`.
pub open spec fn digit_prefix_len(s: Seq<char>) -> int
    decreases s.len(),
{
    if s.len() == 0 || !is_ascii_digit(s[0]) {
        0
    } else {
        1 + digit_prefix_len(s.drop_first())
    }
}

/// `s` is a (possibly empty) run of grouping blocks: each block is the
/// grouping character followed by exactly three digits.
pub open spec fn group_blocks(s: Seq<char>, g: char) -> bool
    decreases s.len(),
{
    if s.len() == 0 {
        true
    } else {
        &&& s.len() >= 4
        &&& s[0] == g
        &&& is_ascii_digit(s[1])
        &&& is_ascii_digit(s[2])
        &&& is_ascii_digit(s[3])
        &&& group_blocks(s.skip(4), g)
    }
}

/// The index of the first occurrence of `c` in `s`, if any.
pub open spec fn first_index_of(s: Seq<char>, c: char) -> Option<int>
    decreases s.len(),
{
    if s.len() == 0 {
        None
    } else if s[0] == c {
        Some(0int)
    } else {
        match first_index_of(s.drop_first(), c) {
            Some(i) => Some(i + 1),
            None => None,
        }
    }
}

/// The index of the last occurrence of `c` in `s`, if any.
pub open spec fn last_index_of(s: Seq<char>, c: char) -> Option<int>
    decreases s.len(),
{
    if s.len() == 0 {
        None
    } else if s[s.len() - 1] == c {
        Some(s.len() - 1)
    } else {
        last_index_of(s.drop_last(), c)
    }
}

/// `s` with every occurrence of `c` removed.
pub open spec fn without_char(s: Seq<char>, c: char) -> Seq<char>
    decreases s.len(),
{
    if s.len() == 0 {
        Seq::empty()
    } else if s[0] == c {
        without_char(s.drop_first(), c)
    } else {
        seq![s[0]] + without_char(s.drop_first(), c)
    }
}

/// An optionally signed, non-empty run of digits: `X`, `+X`, `-X`.
pub open spec fn u_simple_whole(u: Seq<char>) -> bool {
    u.len() > 0 && all_digits(u)
}

/// Digits, the decimal marker, then at least one digit: `X.XX`.
pub open spec fn u_decimal_simple(u: Seq<char>, dec: char) -> bool {
    let p = digit_prefix_len(u);
    &&& 1 <= p
    &&& p + 1 < u.len()
    &&& u[p] == dec
    &&& all_digits(u.skip(p + 1))
}

/// The decimal marker, then at least one digit: `.XX`.
pub open spec fn u_decimal_no_whole(u: Seq<char>, dec: char) -> bool {
    u.len() >= 2 && u[0] == dec && all_digits(u.skip(1))
}

/// Digits, then one or more grouping blocks of three digits: `X XXX XXX`.
pub open spec fn u_grouped_whole(u: Seq<char>, group: char) -> bool {
    let p = digit_prefix_len(u);
    &&& 1 <= p < u.len()
    &&& group_blocks(u.skip(p), group)
}

/// Digits, one or more grouping blocks, the decimal marker, then any run of
/// digits: `X XXX,XX`. The decimal marker is the last occurrence of its
/// character, so the fractional part holds no further marker.
pub open spec fn u_grouped_decimal(u: Seq<char>, group: char, dec: char) -> bool {
    let p = digit_prefix_len(u);
    let t = u.skip(p);
    &&& 1 <= p < u.len()
    &&& match last_index_of(t, dec) {
        Some(q) => q >= 1 && group_blocks(t.take(q), group) && all_digits(t.skip(q + 1)),
        None => false,
    }
}

/// `c` is a decimal digit.
#[verifier::when_used_as_spec(is_ascii_digit)]
pub fn is_digit_char(c: char) -> (r: bool)
    ensures
        r == is_ascii_digit(c),
{
    '0' <= c && c <= '9'
}

/// Establishes that the maximal digit prefix is the unique cut `p` with
/// digits before it and, unless `p` is the end, a non-digit at it.
pub proof fn lemma_digit_prefix_len_unique(s: Seq<char>, p: int)
    requires
        0 <= p <= s.len(),
        forall|i: int| 0 <= i < p ==> is_ascii_digit(#[trigger] s[i]),
        p < s.len() ==> !is_ascii_digit(s[p]),
    ensures
        digit_prefix_len(s) == p,
    decreases s.len(),
{
    if s.len() == 0 {
    } else if p == 0 {
    } else {
        assert(is_ascii_digit(s[0]));
        assert forall|i: int| 0 <= i < p - 1 implies is_ascii_digit(#[trigger] s.drop_first()[i]) by {
            assert(s.drop_first()[i] == s[i + 1]);
        }
        lemma_digit_prefix_len_unique(s.drop_first(), p - 1);
    }
}

/// The basic bounds and content of the maximal digit prefix.
pub proof fn lemma_digit_prefix_len(s: Seq<char>)
    ensures
        0 <= digit_prefix_len(s) <= s.len(),
        forall|i: int| 0 <= i < digit_prefix_len(s) ==> is_ascii_digit(#[trigger] s[i]),
        digit_prefix_len(s) < s.len() ==> !is_ascii_digit(s[digit_prefix_len(s)]),
    decreases s.len(),
{
    if s.len() == 0 || !is_ascii_digit(s[0]) {
    } else {
        lemma_digit_prefix_len(s.drop_first());
        assert forall|i: int| 0 <= i < digit_prefix_len(s) implies is_ascii_digit(
            #[trigger] s[i],
        ) by {
            if i >= 1 {
                assert(s.drop_first()[i - 1] == s[i]);
            }
        }
        if digit_prefix_len(s) < s.len() {
            assert(s[digit_prefix_len(s)] == s.drop_first()[digit_prefix_len(s.drop_first())]);
        }
    }
}

/// If `c` occurs at `q` and nowhere later, `q` is its last occurrence; if it
/// occurs nowhere, there is none.
pub proof fn lemma_last_index_of_char(t: Seq<char>, c: char, q: int)
    requires
        -1 <= q < t.len(),
        q >= 0 ==> t[q] == c,
        forall|k: int| q < k < t.len() ==> #[trigger] t[k] != c,
    ensures
        q >= 0 ==> last_index_of(t, c) == Some(q),
        q == -1 ==> last_index_of(t, c) is None,
    decreases t.len(),
{
    if t.len() == 0 {
    } else if q == t.len() - 1 {
    } else {
        assert(t[t.len() - 1] != c);
        assert forall|k: int| q < k < t.drop_last().len() implies #[trigger] t.drop_last()[k]
            != c by {
            assert(t.drop_last()[k] == t[k]);
        }
        if q >= 0 {
            assert(t.drop_last()[q] == t[q]);
        }
        lemma_last_index_of_char(t.drop_last(), c, q);
    }
}

/// If `c` occurs at `m` and nowhere earlier, `m` is its first occurrence; if
/// it occurs nowhere, there is none.
pub proof fn lemma_first_index_of_char(t: Seq<char>, c: char, m: int)
    requires
        0 <= m <= t.len(),
        forall|k: int| 0 <= k < m ==> #[trigger] t[k] != c,
        m < t.len() ==> t[m] == c,
    ensures
        m < t.len() ==> first_index_of(t, c) == Some(m),
        m == t.len() ==> first_index_of(t, c) is None,
    decreases t.len(),
{
    if t.len() == 0 {
    } else if m == 0 {
    } else {
        assert(t[0] != c);
        assert forall|k: int| 0 <= k < m - 1 implies #[trigger] t.drop_first()[k] != c by {
            assert(t.drop_first()[k] == t[k + 1]);
        }
        if m < t.len() {
            assert(t.drop_first()[m - 1] == t[m]);
        }
        lemma_first_index_of_char(t.drop_first(), c, m - 1);
    }
}

/// The index just past the leading sign character, if the text has one.
pub fn sign_offset(v: &Vec<char>) -> (r: usize)
    ensures
        r <= v.len(),
        r as int == (if v@.len() > 0 && is_sign_char(v@[0]) {
            1int
        } else {
            0int
        }),
        unsigned_part(v@) == v@.skip(r as int),
{
    if v.len() > 0 && (v[0] == '+' || v[0] == '-') {
        1
    } else {
        proof {
            assert(v@.skip(0) =~= v@);
        }
        0
    }
}

/// The first index at or after `start` that does not hold a digit.
pub fn digit_run_end(v: &Vec<char>, start: usize) -> (r: usize)
    requires
        start <= v.len(),
    ensures
        start <= r <= v.len(),
        r - start == digit_prefix_len(v@.skip(start as int)),
{
    let mut i = start;
    while i < v.len() && is_digit_char(v[i])
        invariant
            start <= i <= v.len(),
            forall|k: int| start <= k < i ==> is_ascii_digit(#[trigger] v@[k]),
        decreases v.len() - i,
    {
        i = i + 1;
    }
    proof {
        let u = v@.skip(start as int);
        assert forall|k: int| 0 <= k < i - start implies is_ascii_digit(#[trigger] u[k]) by {
            assert(u[k] == v@[start + k]);
        }
        if (i as int) - start < u.len() {
            assert(u[i - start] == v@[i as int]);
        }
        lemma_digit_prefix_len_unique(u, i - start);
    }
    i
}

/// Whether every character in `v[from..to]` is a digit.
pub fn check_all_digits(v: &Vec<char>, from: usize, to: usize) -> (r: bool)
    requires
        from <= to <= v.len(),
    ensures
        r == all_digits(v@.subrange(from as int, to as int)),
{
    let ghost s = v@.subrange(from as int, to as int);
    let mut i = from;
    while i < to
        invariant
            from <= i <= to <= v.len(),
            s == v@.subrange(from as int, to as int),
            forall|k: int| from <= k < i ==> is_ascii_digit(#[trigger] v@[k]),
        decreases to - i,
    {
        if !is_digit_char(v[i]) {
            proof {
                assert(s[i - from] == v@[i as int]);
            }
            return false;
        }
        i = i + 1;
    }
    proof {
        assert forall|k: int| 0 <= k < s.len() implies is_ascii_digit(#[trigger] s[k]) by {
            assert(s[k] == v@[from + k]);
        }
    }
    true
}

/// Whether `v[from..to]` is a run of grouping blocks under `g`.
pub fn check_group_blocks(v: &Vec<char>, from: usize, to: usize, g: char) -> (r: bool)
    requires
        from <= to <= v.len(),
    ensures
        r == group_blocks(v@.subrange(from as int, to as int), g),
    decreases to - from,
{
    let ghost s = v@.subrange(from as int, to as int);
    if from == to {
        true
    } else if to - from >= 4 && v[from] == g && is_digit_char(v[from + 1]) && is_digit_char(
        v[from + 2],
    ) && is_digit_char(v[from + 3]) {
        let r = check_group_blocks(v, from + 4, to, g);
        proof {
            assert(s.skip(4) =~= v@.subrange(from as int + 4, to as int));
        }
        r
    } else {
        proof {
            if s.len() >= 4 {
                assert(s[0] == v@[from as int]);
                assert(s[1] == v@[from as int + 1]);
                assert(s[2] == v@[from as int + 2]);
                assert(s[3] == v@[from as int + 3]);
            }
        }
        false
    }
}

/// The last index in `v[from..]` holding `c`, if any.
pub fn find_last_char(v: &Vec<char>, from: usize, c: char) -> (r: Option<usize>)
    requires
        from <= v.len(),
    ensures
        match r {
            Some(j) => from <= j < v.len() && last_index_of(v@.skip(from as int), c) == Some(
                j - from as int,
            ),
            None => last_index_of(v@.skip(from as int), c) is None,
        },
{
    let ghost t = v@.skip(from as int);
    let mut i = v.len();
    while i > from
        invariant
            from <= i <= v.len(),
            t == v@.skip(from as int),
            forall|k: int| i <= k < v.len() ==> #[trigger] v@[k] != c,
        decreases i,
    {
        i = i - 1;
        if v[i] == c {
            proof {
                assert(t[i - from] == v@[i as int]);
                assert forall|k: int| i - from < k < t.len() implies #[trigger] t[k] != c by {
                    assert(t[k] == v@[from + k]);
                }
                lemma_last_index_of_char(t, c, i - from);
            }
            return Some(i);
        }
    }
    proof {
        assert forall|k: int| -1 < k < t.len() implies #[trigger] t[k] != c by {
            assert(t[k] == v@[from + k]);
        }
        lemma_last_index_of_char(t, c, -1);
    }
    None
}

/// The first index in `v[from..]` holding `c`, if any.
pub fn find_first_char(v: &Vec<char>, from: usize, c: char) -> (r: Option<usize>)
    requires
        from <= v.len(),
    ensures
        match r {
            Some(j) => from <= j < v.len() && first_index_of(v@.skip(from as int), c) == Some(
                j - from as int,
            ),
            None => first_index_of(v@.skip(from as int), c) is None,
        },
{
    let ghost t = v@.skip(from as int);
    let mut i = from;
    while i < v.len()
        invariant
            from <= i <= v.len(),
            t == v@.skip(from as int),
            forall|k: int| from <= k < i ==> #[trigger] v@[k] != c,
        decreases v.len() - i,
    {
        if v[i] == c {
            proof {
                assert(t[i - from] == v@[i as int]);
                assert forall|k: int| 0 <= k < i - from implies #[trigger] t[k] != c by {
                    assert(t[k] == v@[from + k]);
                }
                lemma_first_index_of_char(t, c, i - from);
            }
            return Some(i);
        }
        i = i + 1;
    }
    proof {
        assert forall|k: int| 0 <= k < t.len() implies #[trigger] t[k] != c by {
            assert(t[k] == v@[from + k]);
        }
        lemma_first_index_of_char(t, c, t.len() as int);
    }
    None
}

/// `v[from..]` with every occurrence of `c` removed.
pub fn remove_char(v: &Vec<char>, from: usize, c: char) -> (r: Vec<char>)
    requires
        from <= v.len(),
    ensures
        r@ == without_char(v@.skip(from as int), c),
{
    let mut r: Vec<char> = Vec::new();
    let mut i = from;
    proof {
        assert(v@.skip(from as int).skip(0) =~= v@.skip(from as int));
    }
    while i < v.len()
        invariant
            from <= i <= v.len(),
            r@ + without_char(v@.skip(i as int), c) == without_char(v@.skip(from as int), c),
        decreases v.len() - i,
    {
        proof {
            let t = v@.skip(i as int);
            assert(t[0] == v@[i as int]);
            assert(t.drop_first() =~= v@.skip(i as int + 1));
        }
        if v[i] != c {
            r.push(v[i]);
        }
        i = i + 1;
        proof {
            assert(r@ + without_char(v@.skip(i as int), c) =~= without_char(
                v@.skip(from as int),
                c,
            ));
        }
    }
    proof {
        assert(v@.skip(v@.len() as int) =~= Seq::<char>::empty());
        assert(r@ =~= without_char(v@.skip(from as int), c));
    }
    r
}

/// The body of an anchored matcher: one of the five shapes numeric text can
/// take, with the separators it reads.
#[derive(Debug, Clone, Copy, PartialEq, Eq, Structural)]
pub enum PatternBody {
    /// `X`, `+X`, `-X`: an optionally signed run of digits.
    SimpleWhole,
    /// `X<dec>XX`: a whole part, the decimal marker, a fractional part.
    DecimalSimple { dec: Separator },
    /// `<dec>XX`: no whole part before the decimal marker.
    DecimalNoWhole { dec: Separator },
    /// `X<g>XXX<g>XXX`: a whole number with grouping blocks of three digits.
    GroupedWhole { group: Separator },
    /// `X<g>XXX<dec>XX`: grouping blocks, then the decimal marker and any
    /// run of fractional digits.
    GroupedDecimal { group: Separator, dec: Separator },
}

impl PatternBody {
    /// The language of this shape: whether the whole of `s` has it.
    pub open spec fn spec_matches(self, s: Seq<char>) -> bool {
        let u = unsigned_part(s);
        match self {
            PatternBody::SimpleWhole => u_simple_whole(u),
            PatternBody::DecimalSimple { dec } => u_decimal_simple(u, dec.spec_char()),
            PatternBody::DecimalNoWhole { dec } => u_decimal_no_whole(u, dec.spec_char()),
            PatternBody::GroupedWhole { group } => u_grouped_whole(u, group.spec_char()),
            PatternBody::GroupedDecimal { group, dec } => u_grouped_decimal(
                u,
                group.spec_char(),
                dec.spec_char(),
            ),
        }
    }

    /// Whether the whole character sequence `v` has this shape.
    pub fn matches(&self, v: &Vec<char>) -> (r: bool)
        ensures
            r == self.spec_matches(v@),
    {
        let off = sign_offset(v);
        let ghost u = unsigned_part(v@);
        match self {
            PatternBody::SimpleWhole => {
                proof {
                    assert(u =~= v@.subrange(off as int, v@.len() as int));
                }
                off < v.len() && check_all_digits(v, off, v.len())
            },
            PatternBody::DecimalSimple { dec } => {
                let d = dec.to_char();
                let p_end = digit_run_end(v, off);
                proof {
                    assert(v@.skip(off as int) == u);
                }
                if p_end == off || p_end >= v.len() || p_end + 1 >= v.len() {
                    false
                } else if v[p_end] == d {
                    proof {
                        assert(u[p_end - off] == v@[p_end as int]);
                        assert(u.skip(p_end - off + 1) =~= v@.subrange(
                            p_end as int + 1,
                            v@.len() as int,
                        ));
                    }
                    check_all_digits(v, p_end + 1, v.len())
                } else {
                    proof {
                        assert(u[p_end - off] == v@[p_end as int]);
                    }
                    false
                }
            },
            PatternBody::DecimalNoWhole { dec } => {
                let d = dec.to_char();
                proof {
                    if v@.len() - off >= 2 {
                        assert(u[0] == v@[off as int]);
                        assert(u.skip(1) =~= v@.subrange(off as int + 1, v@.len() as int));
                    }
                }
                v.len() - off >= 2 && v[off] == d && check_all_digits(v, off + 1, v.len())
            },
            PatternBody::GroupedWhole { group } => {
                let g = group.to_char();
                let p_end = digit_run_end(v, off);
                proof {
                    assert(v@.skip(off as int) == u);
                }
                if p_end == off || p_end >= v.len() {
                    false
                } else {
                    proof {
                        assert(u.skip(p_end - off) =~= v@.subrange(p_end as int, v@.len() as int));
                    }
                    check_group_blocks(v, p_end, v.len(), g)
                }
            },
            PatternBody::GroupedDecimal { group, dec } => {
                let g = group.to_char();
                let d = dec.to_char();
                let p_end = digit_run_end(v, off);
                proof {
                    assert(v@.skip(off as int) == u);
                }
                if p_end == off || p_end >= v.len() {
                    false
                } else {
                    let ghost t = u.skip(p_end - off);
                    proof {
                        assert(t =~= v@.skip(p_end as int));
                    }
                    match find_last_char(v, p_end, d) {
                        Some(j) => {
                            if j == p_end {
                                false
                            } else {
                                proof {
                                    assert(t.take(j - p_end) =~= v@.subrange(
                                        p_end as int,
                                        j as int,
                                    ));
                                    assert(t.skip(j - p_end + 1) =~= v@.subrange(
                                        j as int + 1,
                                        v@.len() as int,
                                    ));
                                }
                                check_group_blocks(v, p_end, j, g) && check_all_digits(
                                    v,
                                    j + 1,
                                    v.len(),
                                )
                            }
                        },
                        None => false,
                    }
                }
            },
        }
    }
}

/// An anchored matcher in the prefix/body/suffix style of the registry's
/// rules: the body shape must cover the whole input, as between `^` and `$`.
#[derive(Debug, Clone, Copy, PartialEq, Eq, Structural)]
pub struct RegexPattern {
    pub body: PatternBody,
}

impl RegexPattern {
    /// An anchored matcher with the given body shape.
    pub fn new(body: PatternBody) -> (r: RegexPattern)
        ensures
            r.body == body,
    {
        RegexPattern { body }
    }

    /// The language of this matcher.
    pub open spec fn spec_matches(self, s: Seq<char>) -> bool {
        self.body.spec_matches(s)
    }

    /// Whether the whole of `text` is in this matcher's language.
    pub fn is_match(&self, text: &str) -> (r: bool)
        ensures
            r == self.spec_matches(text@),
    {
        let v = chars_of(text);
        self.body.matches(&v)
    }
}

} // verus!
