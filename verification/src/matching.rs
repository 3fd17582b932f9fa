//! The matching engine: evaluates the candidate patterns in order and
//! returns the first one whose anchored matcher accepts the whole input.

use vstd::prelude::*;
use crate::culture::Culture;
use crate::culture::NumberCultureSettings;
use crate::culture::SettingsView;
use crate::pattern::CulturePattern;
use crate::pattern::CulturePatternView;
use crate::pattern::NumberPatterns;
use crate::pattern::NumberPatternsView;
use crate::pattern::ParsingPattern;
use crate::pattern::ParsingPatternView;
use crate::pattern::opt_settings_view;
use crate::pattern::spec_first_culture_group;
use crate::separator::NumberType;
use crate::text::chars_of;

verus! {

/// The view of a match result.
#[verifier::ext_equal]
pub struct MatchResultView {
    pub pattern: ParsingPatternView,
    pub culture_settings: Option<SettingsView>,
    pub number_type: NumberType,
}

/// What the matching engine found: the winning pattern, the culture settings
/// it resolves to (absent for a culture-agnostic pattern), and the number
/// type it implies.
#[derive(Debug)]
pub struct MatchResult {
    pub pattern: ParsingPattern,
    pub culture_settings: Option<NumberCultureSettings>,
    pub number_type: NumberType,
}

impl View for MatchResult {
    type V = MatchResultView;

    open spec fn view(&self) -> MatchResultView {
        MatchResultView {
            pattern: self.pattern@,
            culture_settings: opt_settings_view(self.culture_settings),
            number_type: self.number_type,
        }
    }
}

/// No pattern matched: the original text and the cultures attempted.
#[derive(Debug)]
pub struct NoMatchError {
    pub text: String,
    pub cultures: Vec<Culture>,
}

/// The index of the first candidate whose matcher accepts `s`, if any.
pub open spec fn spec_first_match_index(cands: Seq<ParsingPatternView>, s: Seq<char>) -> Option<
    int,
>
    decreases cands.len(),
{
    if cands.len() == 0 {
        None
    } else if cands[0].regex.spec_matches(s) {
        Some(0int)
    } else {
        match spec_first_match_index(cands.drop_first(), s) {
            Some(i) => Some(i + 1),
            None => None,
        }
    }
}

/// The patterns of all groups, in registration order.
pub open spec fn spec_group_patterns_concat(groups: Seq<CulturePatternView>) -> Seq<
    ParsingPatternView,
>
    decreases groups.len(),
{
    if groups.len() == 0 {
        Seq::empty()
    } else {
        groups[0].patterns + spec_group_patterns_concat(groups.drop_first())
    }
}

/// The candidate list for one request: the common patterns, then — under a
/// culture hint — the patterns of that culture's group, or otherwise the
/// patterns of every group in registration order.
pub open spec fn spec_candidates(rv: NumberPatternsView, hint: Option<Culture>) -> Seq<
    ParsingPatternView,
> {
    match hint {
        Some(c) => rv.common + (match spec_first_culture_group(rv.cultures, c) {
            Some(g) => g.patterns,
            None => Seq::empty(),
        }),
        None => rv.common + spec_group_patterns_concat(rv.cultures),
    }
}

/// The cultures of all groups, in registration order.
pub open spec fn spec_all_cultures(groups: Seq<CulturePatternView>) -> Seq<Culture>
    decreases groups.len(),
{
    if groups.len() == 0 {
        Seq::empty()
    } else {
        groups[0].cultures + spec_all_cultures(groups.drop_first())
    }
}

/// The cultures a request tried: the hinted one, or every registered one.
pub open spec fn spec_attempted_cultures(rv: NumberPatternsView, hint: Option<Culture>) -> Seq<
    Culture,
> {
    match hint {
        Some(c) => seq![c],
        None => spec_all_cultures(rv.cultures),
    }
}

/// A first match among skipped candidates shifts by the skip count.
proof fn lemma_first_match_skip(cands: Seq<ParsingPatternView>, s: Seq<char>, i: int)
    requires
        0 <= i <= cands.len(),
        forall|k: int| 0 <= k < i ==> !(#[trigger] cands[k].regex.spec_matches(s)),
    ensures
        spec_first_match_index(cands, s) == match spec_first_match_index(cands.skip(i), s) {
            Some(j) => Some(j + i),
            None => None::<int>,
        },
    decreases i,
{
    if i == 0 {
        assert(cands.skip(0) =~= cands);
    } else {
        assert(!cands[0].regex.spec_matches(s));
        assert forall|k: int| 0 <= k < i - 1 implies !(#[trigger] cands.drop_first()[k]
            .regex.spec_matches(s)) by {
            assert(cands.drop_first()[k] == cands[k + 1]);
        }
        lemma_first_match_skip(cands.drop_first(), s, i - 1);
        assert(cands.drop_first().skip(i - 1) =~= cands.skip(i));
    }
}

/// A first match over a concatenation comes from the left part if it has
/// one, else from the right part with a shifted index.
proof fn lemma_first_match_concat(a: Seq<ParsingPatternView>, b: Seq<ParsingPatternView>, s: Seq<
    char,
>)
    ensures
        spec_first_match_index(a + b, s) == match spec_first_match_index(a, s) {
            Some(i) => Some(i),
            None => match spec_first_match_index(b, s) {
                Some(j) => Some(j + a.len()),
                None => None::<int>,
            },
        },
    decreases a.len(),
{
    if a.len() == 0 {
        assert(a + b =~= b);
    } else {
        assert((a + b)[0] == a[0]);
        assert((a + b).drop_first() =~= a.drop_first() + b);
        lemma_first_match_concat(a.drop_first(), b, s);
    }
}

/// The index of the first pattern in `patterns` matching `v`, if any.
fn first_match_in(patterns: &Vec<ParsingPattern>, v: &Vec<char>) -> (r: Option<usize>)
    ensures
        ({
            let pv = patterns@.map_values(|p: ParsingPattern| p@);
            match r {
                Some(i) => 0 <= i < patterns@.len() && spec_first_match_index(pv, v@) == Some(
                    i as int,
                ) && pv[i as int].regex.spec_matches(v@),
                None => spec_first_match_index(pv, v@) is None,
            }
        }),
{
    let ghost pv = patterns@.map_values(|p: ParsingPattern| p@);
    let mut i: usize = 0;
    while i < patterns.len()
        invariant
            i <= patterns.len(),
            pv == patterns@.map_values(|p: ParsingPattern| p@),
            forall|k: int| 0 <= k < i ==> !(#[trigger] pv[k].regex.spec_matches(v@)),
        decreases patterns.len() - i,
    {
        let matched = patterns[i].get_regex().body.matches(v);
        if matched {
            proof {
                lemma_first_match_skip(pv, v@, i as int);
                assert(pv.skip(i as int)[0] == pv[i as int]);
            }
            return Some(i);
        }
        i = i + 1;
    }
    proof {
        lemma_first_match_skip(pv, v@, patterns@.len() as int);
        assert(pv.skip(pv.len() as int) =~= Seq::<ParsingPatternView>::empty());
    }
    None
}

/// The cultures of every group, concatenated in registration order.
fn collect_cultures(groups: &Vec<CulturePattern>) -> (r: Vec<Culture>)
    ensures
        r@ == spec_all_cultures(groups@.map_values(|g: CulturePattern| g@)),
{
    let ghost gv = groups@.map_values(|g: CulturePattern| g@);
    let mut r: Vec<Culture> = Vec::new();
    proof {
        assert(gv.skip(0) =~= gv);
        assert(r@ + spec_all_cultures(gv) =~= spec_all_cultures(gv));
    }
    let mut k: usize = 0;
    while k < groups.len()
        invariant
            k <= groups.len(),
            gv == groups@.map_values(|g: CulturePattern| g@),
            r@ + spec_all_cultures(gv.skip(k as int)) == spec_all_cultures(gv),
        decreases groups.len() - k,
    {
        proof {
            assert(gv.skip(k as int)[0] == gv[k as int]);
            assert(gv.skip(k as int).drop_first() =~= gv.skip(k as int + 1));
        }
        let cultures = groups[k].get_cultures();
        let mut j: usize = 0;
        let ghost r0 = r@;
        while j < cultures.len()
            invariant
                j <= cultures.len(),
                cultures@ == gv[k as int].cultures,
                r@ == r0 + gv[k as int].cultures.take(j as int),
            decreases cultures.len() - j,
        {
            r.push(cultures[j]);
            j = j + 1;
            proof {
                assert(r@ =~= r0 + gv[k as int].cultures.take(j as int));
            }
        }
        k = k + 1;
        proof {
            assert(gv[k - 1].cultures.take(cultures@.len() as int) =~= gv[k - 1].cultures);
            assert(r@ + spec_all_cultures(gv.skip(k as int)) =~= spec_all_cultures(gv));
        }
    }
    proof {
        assert(gv.skip(gv.len() as int) =~= Seq::<CulturePatternView>::empty());
        assert(r@ + Seq::<Culture>::empty() =~= r@);
    }
    r
}

/// A match result built from the winning pattern.
fn result_of(pattern: &ParsingPattern) -> (r: MatchResult)
    ensures
        r@.pattern == pattern@,
        r@.culture_settings == pattern@.culture_settings,
        r@.number_type == pattern@.number_type,
{
    let culture_settings = match pattern.get_culture_settings() {
        Some(cs) => Some(cs.clone()),
        None => None,
    };
    let number_type = *pattern.get_number_type();
    MatchResult { pattern: pattern.clone(), culture_settings, number_type }
}

impl NumberPatterns {
    /// Evaluates the candidate patterns in order — the common patterns, then
    /// the hinted culture's group or every group — and returns the first
    /// match, or a `NoMatchError` naming the text and the cultures attempted.
    pub fn match_text(&self, text: &str, culture: Option<Culture>) -> (r: Result<
        MatchResult,
        NoMatchError,
    >)
        ensures
            ({
                let cands = spec_candidates(self@, culture);
                match r {
                    Ok(m) => {
                        &&& match spec_first_match_index(cands, text@) {
                            Some(i) => 0 <= i < cands.len() && m@.pattern == cands[i],
                            None => false,
                        }
                        &&& m@.pattern.regex.spec_matches(text@)
                        &&& m@.culture_settings == m@.pattern.culture_settings
                        &&& m@.number_type == m@.pattern.number_type
                    },
                    Err(e) => {
                        &&& spec_first_match_index(cands, text@) is None
                        &&& e.text@ == text@
                        &&& e.cultures@ == spec_attempted_cultures(self@, culture)
                    },
                }
            }),
    {
        let v = chars_of(text);
        let ghost cands = spec_candidates(self@, culture);
        let commons = self.get_common_pattern();
        let ghost common_v = self@.common;
        if let Some(i) = first_match_in(&commons, &v) {
            proof {
                match culture {
                    Some(c) => {
                        match spec_first_culture_group(self@.cultures, c) {
                            Some(g) => lemma_first_match_concat(common_v, g.patterns, v@),
                            None => lemma_first_match_concat(
                                common_v,
                                Seq::<ParsingPatternView>::empty(),
                                v@,
                            ),
                        }
                    },
                    None => lemma_first_match_concat(
                        common_v,
                        spec_group_patterns_concat(self@.cultures),
                        v@,
                    ),
                }
                assert(cands[i as int] == common_v[i as int]);
            }
            return Ok(result_of(&commons[i]));
        }
        match culture {
            Some(c) => {
                match self.get_culture_pattern(&c) {
                    Some(group) => {
                        let patterns = group.get_patterns();
                        let ghost gp = group@.patterns;
                        proof {
                            lemma_first_match_concat(common_v, gp, v@);
                        }
                        match first_match_in(patterns, &v) {
                            Some(j) => {
                                proof {
                                    assert(cands[common_v.len() + j] == gp[j as int]);
                                }
                                Ok(result_of(&patterns[j]))
                            },
                            None => {
                                let mut cultures: Vec<Culture> = Vec::new();
                                cultures.push(c);
                                proof {
                                    assert(cultures@ =~= seq![c]);
                                }
                                Err(NoMatchError { text: text.to_owned(), cultures })
                            },
                        }
                    },
                    None => {
                        proof {
                            lemma_first_match_concat(
                                common_v,
                                Seq::<ParsingPatternView>::empty(),
                                v@,
                            );
                        }
                        let mut cultures: Vec<Culture> = Vec::new();
                        cultures.push(c);
                        proof {
                            assert(cultures@ =~= seq![c]);
                        }
                        Err(NoMatchError { text: text.to_owned(), cultures })
                    },
                }
            },
            None => {
                let groups = self.get_all_culture_pattern();
                let ghost gv = self@.cultures;
                proof {
                    lemma_first_match_concat(common_v, spec_group_patterns_concat(gv), v@);
                    assert(gv.skip(0) =~= gv);
                }
                let mut k: usize = 0;
                let ghost mut offset = common_v.len() as int;
                while k < groups.len()
                    invariant
                        k <= groups.len(),
                        culture is None,
                        v@ == text@,
                        common_v == self@.common,
                        gv == self@.cultures,
                        groups@.map_values(|g: CulturePattern| g@) == gv,
                        cands == spec_candidates(self@, None::<Culture>),
                        offset == common_v.len() + spec_group_patterns_concat(gv).len()
                            - spec_group_patterns_concat(gv.skip(k as int)).len(),
                        offset >= 0,
                        match spec_first_match_index(
                            spec_group_patterns_concat(gv.skip(k as int)),
                            v@,
                        ) {
                            Some(j) => spec_first_match_index(cands, v@) == Some(j + offset),
                            None => spec_first_match_index(cands, v@) is None,
                        },
                        forall|n: int|
                            offset <= n < spec_candidates(self@, None::<Culture>).len()
                                ==> #[trigger] spec_candidates(self@, None::<Culture>)[n]
                                == spec_group_patterns_concat(gv.skip(k as int))[n - offset],
                    decreases groups.len() - k,
                {
                    proof {
                        assert(gv.skip(k as int)[0] == gv[k as int]);
                        assert(gv.skip(k as int).drop_first() =~= gv.skip(k as int + 1));
                        lemma_first_match_concat(
                            gv[k as int].patterns,
                            spec_group_patterns_concat(gv.skip(k as int + 1)),
                            v@,
                        );
                    }
                    let ghost tail = spec_group_patterns_concat(gv.skip(k as int + 1));
                    proof {
                        assert(spec_group_patterns_concat(gv.skip(k as int)) == gv[k as int]
                            .patterns + tail);
                    }
                    let patterns = groups[k].get_patterns();
                    match first_match_in(patterns, &v) {
                        Some(j) => {
                            proof {
                                assert(cands.len() == common_v.len() + spec_group_patterns_concat(
                                    gv,
                                ).len());
                                assert((gv[k as int].patterns + tail).len() == gv[k as int]
                                    .patterns.len() + tail.len());
                                assert(offset + j < cands.len());
                                assert((gv[k as int].patterns + tail)[j as int] == gv[k as int]
                                    .patterns[j as int]);
                                assert(spec_candidates(self@, None::<Culture>)[offset + j]
                                    == spec_group_patterns_concat(gv.skip(k as int))[j as int]);
                            }
                            return Ok(result_of(&patterns[j]));
                        },
                        None => {},
                    }
                    k = k + 1;
                    proof {
                        let old_offset = offset;
                        let plen = gv[k - 1].patterns.len() as int;
                        offset = offset + plen;
                        assert forall|n: int|
                            offset <= n < spec_candidates(self@, None::<Culture>).len()
                                implies #[trigger] spec_candidates(self@, None::<Culture>)[n]
                            == spec_group_patterns_concat(gv.skip(k as int))[n - offset] by {
                            assert(cands.len() == common_v.len() + spec_group_patterns_concat(
                                gv,
                            ).len());
                            assert(spec_group_patterns_concat(gv.skip(k as int - 1)) == gv[k - 1]
                                .patterns + tail);
                            assert((gv[k - 1].patterns + tail).len() == plen + tail.len());
                            assert(spec_candidates(self@, None::<Culture>)[n]
                                == spec_group_patterns_concat(gv.skip(k as int - 1))[n
                                - old_offset]);
                            assert((gv[k - 1].patterns + tail)[n - old_offset] == tail[n
                                - old_offset - plen]);
                        }
                    }
                }
                proof {
                    assert(gv.skip(gv.len() as int) =~= Seq::<CulturePatternView>::empty());
                }
                let cultures = collect_cultures(&groups);
                Err(NoMatchError { text: text.to_owned(), cultures })
            },
        }
    }
}

} // verus!
