//! Laws of the registry, the matcher and the converter, proved once and for
//! all inputs: which group each built-in culture resolves to, that plain
//! signed digit strings always take the common whole pattern, and that
//! formatting a normalized number and parsing it back under the same culture
//! reproduces it exactly.

use vstd::prelude::*;
use crate::culture::Culture;
use crate::culture::SettingsView;
use crate::culture::spec_settings_of;
use crate::conversion::NormalizedNumberView;
use crate::conversion::Sign;
use crate::conversion::spec_convert;
use crate::conversion::spec_format;
use crate::conversion::spec_grouped;
use crate::conversion::spec_sign_of;
use crate::conversion::spec_stripped;
use crate::matcher::PatternBody;
use crate::matcher::all_digits;
use crate::matcher::digit_prefix_len;
use crate::matcher::first_index_of;
use crate::matcher::group_blocks;
use crate::matcher::is_ascii_digit;
use crate::matcher::is_sign_char;
use crate::matcher::last_index_of;
use crate::matcher::lemma_digit_prefix_len;
use crate::matcher::lemma_digit_prefix_len_unique;
use crate::matcher::lemma_first_index_of_char;
use crate::matcher::lemma_last_index_of_char;
use crate::matcher::u_decimal_no_whole;
use crate::matcher::u_decimal_simple;
use crate::matcher::u_grouped_decimal;
use crate::matcher::u_grouped_whole;
use crate::matcher::u_simple_whole;
use crate::matcher::unsigned_part;
use crate::matcher::without_char;
use crate::matching::spec_candidates;
use crate::matching::spec_group_patterns_concat;
use crate::matching::spec_first_match_index;
use crate::pattern::CulturePatternView;
use crate::pattern::NumberPatternsView;
use crate::pattern::ParsingPatternView;
use crate::pattern::spec_common_simple_whole;
use crate::pattern::spec_default_registry;
use crate::pattern::spec_en_group;
use crate::pattern::spec_en_patterns;
use crate::pattern::spec_first_culture_group;
use crate::pattern::spec_fr_group;
use crate::pattern::spec_fr_patterns;
use crate::pattern::spec_it_group;
use crate::pattern::spec_it_patterns;
use crate::separator::NumberType;
use crate::separator::Separator;

verus! {

/// In the built-in registry, each culture resolves to its own group: the
/// French, English and Italian lookups yield the groups named `"fr"`, `"en"`
/// and `"it"`, each with its four patterns.
pub proof fn lemma_builtin_culture_groups()
    ensures
        spec_first_culture_group(spec_default_registry().cultures, Culture::French) == Some(
            spec_fr_group(),
        ),
        spec_first_culture_group(spec_default_registry().cultures, Culture::English) == Some(
            spec_en_group(),
        ),
        spec_first_culture_group(spec_default_registry().cultures, Culture::Italian) == Some(
            spec_it_group(),
        ),
        spec_fr_group().name == "fr"@ && spec_fr_group().patterns.len() == 4,
        spec_en_group().name == "en"@ && spec_en_group().patterns.len() == 4,
        spec_it_group().name == "it"@ && spec_it_group().patterns.len() == 4,
{
    let groups = spec_default_registry().cultures;
    assert(groups[0] == spec_fr_group());
    assert(groups.drop_first() =~= seq![spec_en_group(), spec_it_group()]);
    assert(groups.drop_first().drop_first() =~= seq![spec_it_group()]);
    assert(spec_fr_group().cultures[0] == Culture::French);
    assert(spec_en_group().cultures[0] == Culture::English);
    assert(spec_it_group().cultures[0] == Culture::Italian);
    assert(spec_fr_group().cultures.contains(Culture::French));
    assert(!spec_fr_group().cultures.contains(Culture::English));
    assert(!spec_fr_group().cultures.contains(Culture::Italian));
    assert(spec_en_group().cultures.contains(Culture::English));
    assert(!spec_en_group().cultures.contains(Culture::Italian));
    assert(spec_it_group().cultures.contains(Culture::Italian));
    assert(seq![spec_it_group()][0] == spec_it_group());
    assert(spec_first_culture_group(seq![spec_it_group()], Culture::Italian) == Some(
        spec_it_group(),
    ));
    assert(seq![spec_en_group(), spec_it_group()][0] == spec_en_group());
    assert(seq![spec_en_group(), spec_it_group()].drop_first() =~= seq![spec_it_group()]);
    assert(spec_first_culture_group(seq![spec_en_group(), spec_it_group()], Culture::English)
        == Some(spec_en_group()));
    assert(spec_first_culture_group(seq![spec_en_group(), spec_it_group()], Culture::Italian)
        == Some(spec_it_group()));
}

/// Text that is nothing but an optionally signed run of digits always takes
/// the first candidate — the common whole pattern — under any culture hint,
/// and converts to that digit run with the sign extracted.
pub proof fn lemma_common_whole(p: NumberPatternsView, s: Seq<char>, hint: Option<Culture>)
    requires
        p == spec_default_registry(),
        unsigned_part(s).len() > 0,
        all_digits(unsigned_part(s)),
    ensures
        spec_candidates(p, hint).len() > 0,
        spec_candidates(p, hint)[0] == spec_common_simple_whole(),
        spec_first_match_index(spec_candidates(p, hint), s) == Some(0int),
        spec_convert(s, None, NumberType::WHOLE) == Some(
            NormalizedNumberView {
                sign: spec_sign_of(s),
                integer_digits: unsigned_part(s),
                fractional_digits: None,
            },
        ),
{
    let cands = spec_candidates(p, hint);
    match hint {
        Some(c) => {
            match spec_first_culture_group(p.cultures, c) {
                Some(g) => {
                    assert(cands == p.common + g.patterns);
                    assert(cands[0] == p.common[0]);
                },
                None => {
                    assert(cands == p.common + Seq::<ParsingPatternView>::empty());
                    assert(cands[0] == p.common[0]);
                },
            }
        },
        None => {
            assert(cands[0] == p.common[0]);
        },
    }
    assert(cands[0] == spec_common_simple_whole());
    assert(u_simple_whole(unsigned_part(s)));
    assert(cands[0].regex.spec_matches(s));
    assert(spec_first_match_index(cands, s) == Some(0int));
    assert(spec_stripped(s, None) == unsigned_part(s));
}

/// Every candidate the built-in registry can resolve, under any hint,
/// carries either no culture settings or well-formed ones, so a match from
/// the built-in table always satisfies what the conversion step asks for.
pub proof fn lemma_default_candidates_wf(p: NumberPatternsView, hint: Option<Culture>)
    requires
        p == spec_default_registry(),
    ensures
        forall|i: int|
            0 <= i < spec_candidates(p, hint).len() ==> match (#[trigger] spec_candidates(
                p,
                hint,
            )[i]).culture_settings {
                Some(cs) => cs.wf(),
                None => true,
            },
{
    lemma_builtin_culture_groups();
    let cands = spec_candidates(p, hint);
    let groups = p.cultures;
    match hint {
        Some(c) => {
            let gp = match c {
                Culture::French => spec_fr_patterns(),
                Culture::English => spec_en_patterns(),
                Culture::Italian => spec_it_patterns(),
            };
            assert(cands == p.common + gp);
            assert forall|i: int|
                0 <= i < cands.len() implies match (#[trigger] cands[i]).culture_settings {
                Some(cs) => cs.wf(),
                None => true,
            } by {
                if i == 0 {
                    assert(cands[i] == p.common[0]);
                } else {
                    assert(cands[i] == gp[i - 1]);
                }
            }
        },
        None => {
            let e = Seq::<CulturePatternView>::empty();
            assert(groups.drop_first() =~= seq![spec_en_group(), spec_it_group()]);
            assert(seq![spec_en_group(), spec_it_group()].drop_first() =~= seq![spec_it_group()]);
            assert(seq![spec_it_group()].drop_first() =~= e);
            assert(spec_group_patterns_concat(e) =~= Seq::<ParsingPatternView>::empty());
            assert(seq![spec_it_group()][0] == spec_it_group());
            assert(spec_group_patterns_concat(seq![spec_it_group()]) =~= spec_it_patterns());
            assert(seq![spec_en_group(), spec_it_group()][0] == spec_en_group());
            assert(spec_group_patterns_concat(seq![spec_en_group(), spec_it_group()])
                =~= spec_en_patterns() + spec_it_patterns());
            let all = spec_group_patterns_concat(groups);
            assert(all =~= spec_fr_patterns() + (spec_en_patterns() + spec_it_patterns()));
            assert(cands == p.common + all);
            assert forall|i: int|
                0 <= i < cands.len() implies match (#[trigger] cands[i]).culture_settings {
                Some(cs) => cs.wf(),
                None => true,
            } by {
                if i == 0 {
                    assert(cands[i] == p.common[0]);
                } else {
                    assert(cands[i] == all[i - 1]);
                    if i < 5 {
                        assert(all[i - 1] == spec_fr_patterns()[i - 1]);
                    } else {
                        assert(all[i - 1] == (spec_en_patterns() + spec_it_patterns())[i - 5]);
                        if i < 9 {
                            assert(cands[i] == spec_en_patterns()[i - 5]);
                        } else {
                            assert(cands[i] == spec_it_patterns()[i - 9]);
                        }
                    }
                }
            }
        },
    }
}

/// What a found last occurrence means: the character is there and nothing
/// after it is the character; absence means the character never occurs.
proof fn lemma_last_index_of_char_sound(s: Seq<char>, c: char)
    ensures
        match last_index_of(s, c) {
            Some(j) => 0 <= j < s.len() && s[j] == c && forall|k: int|
                j < k < s.len() ==> #[trigger] s[k] != c,
            None => forall|k: int| 0 <= k < s.len() ==> #[trigger] s[k] != c,
        },
    decreases s.len(),
{
    if s.len() == 0 {
    } else if s[s.len() - 1] == c {
    } else {
        lemma_last_index_of_char_sound(s.drop_last(), c);
        assert forall|k: int| 0 <= k < s.drop_last().len() implies s.drop_last()[k] == s[k] by {}
    }
}

/// The simple decimal shape accepts exactly the texts of the form
/// `digits, marker, digits` with both digit runs non-empty, for any marker
/// that is not itself a digit.
pub proof fn lemma_decimal_simple_characterization(u: Seq<char>, dec: char)
    requires
        !is_ascii_digit(dec),
    ensures
        u_decimal_simple(u, dec) <==> exists|i: int|
            1 <= i && i + 1 < u.len() && all_digits(#[trigger] u.take(i)) && u[i] == dec
                && all_digits(u.skip(i + 1)),
{
    if u_decimal_simple(u, dec) {
        let p = digit_prefix_len(u);
        lemma_digit_prefix_len(u);
        assert forall|k: int| 0 <= k < u.take(p).len() implies is_ascii_digit(
            #[trigger] u.take(p)[k],
        ) by {
            assert(u.take(p)[k] == u[k]);
        }
        assert(1 <= p && p + 1 < u.len() && all_digits(u.take(p)) && u[p] == dec && all_digits(
            u.skip(p + 1),
        ));
    }
    if exists|i: int|
        1 <= i && i + 1 < u.len() && all_digits(#[trigger] u.take(i)) && u[i] == dec && all_digits(
            u.skip(i + 1),
        ) {
        let i = choose|i: int|
            1 <= i && i + 1 < u.len() && all_digits(#[trigger] u.take(i)) && u[i] == dec
                && all_digits(u.skip(i + 1));
        assert forall|k: int| 0 <= k < i implies is_ascii_digit(#[trigger] u[k]) by {
            assert(u.take(i)[k] == u[k]);
        }
        lemma_digit_prefix_len_unique(u, i);
    }
}

/// The grouped whole shape accepts exactly the texts of the form `digits,
/// then grouping blocks of three digits` with both parts non-empty, for any
/// grouping character that is not itself a digit.
pub proof fn lemma_grouped_whole_characterization(u: Seq<char>, g: char)
    requires
        !is_ascii_digit(g),
    ensures
        u_grouped_whole(u, g) <==> exists|i: int|
            1 <= i < u.len() && all_digits(#[trigger] u.take(i)) && group_blocks(u.skip(i), g),
{
    if u_grouped_whole(u, g) {
        let p = digit_prefix_len(u);
        lemma_digit_prefix_len(u);
        assert forall|k: int| 0 <= k < u.take(p).len() implies is_ascii_digit(
            #[trigger] u.take(p)[k],
        ) by {
            assert(u.take(p)[k] == u[k]);
        }
        assert(1 <= p < u.len() && all_digits(u.take(p)) && group_blocks(u.skip(p), g));
    }
    if exists|i: int|
        1 <= i < u.len() && all_digits(#[trigger] u.take(i)) && group_blocks(u.skip(i), g) {
        let i = choose|i: int|
            1 <= i < u.len() && all_digits(#[trigger] u.take(i)) && group_blocks(u.skip(i), g);
        assert(u.skip(i)[0] == u[i]);
        assert(u[i] == g);
        assert forall|k: int| 0 <= k < i implies is_ascii_digit(#[trigger] u[k]) by {
            assert(u.take(i)[k] == u[k]);
        }
        lemma_digit_prefix_len_unique(u, i);
    }
}

/// The grouped decimal shape accepts exactly the texts of the form `digits,
/// grouping blocks, marker, digits` — the whole part and the block run
/// non-empty, the fractional run possibly empty — for distinct non-digit
/// grouping and marker characters.
pub proof fn lemma_grouped_decimal_characterization(u: Seq<char>, g: char, dec: char)
    requires
        !is_ascii_digit(g),
        !is_ascii_digit(dec),
    ensures
        u_grouped_decimal(u, g, dec) <==> exists|i: int, q: int|
            1 <= i < q < u.len() && all_digits(u.take(i)) && group_blocks(
                #[trigger] u.subrange(i, q),
                g,
            ) && u[q] == dec && all_digits(u.skip(q + 1)),
{
    let p = digit_prefix_len(u);
    let t = u.skip(p);
    if u_grouped_decimal(u, g, dec) {
        lemma_digit_prefix_len(u);
        lemma_last_index_of_char_sound(t, dec);
        let j = last_index_of(t, dec)->Some_0;
        let q = p + j;
        assert(t[j] == u[q]);
        assert forall|k: int| 0 <= k < u.take(p).len() implies is_ascii_digit(
            #[trigger] u.take(p)[k],
        ) by {
            assert(u.take(p)[k] == u[k]);
        }
        assert(u.subrange(p, q) =~= t.take(j));
        assert(u.skip(q + 1) =~= t.skip(j + 1));
        assert(1 <= p < q < u.len() && all_digits(u.take(p)) && group_blocks(
            u.subrange(p, q),
            g,
        ) && u[q] == dec && all_digits(u.skip(q + 1)));
    }
    if exists|i: int, q: int|
        1 <= i < q < u.len() && all_digits(u.take(i)) && group_blocks(
            #[trigger] u.subrange(i, q),
            g,
        ) && u[q] == dec && all_digits(u.skip(q + 1)) {
        let (i, q) = choose|i: int, q: int|
            1 <= i < q < u.len() && all_digits(u.take(i)) && group_blocks(
                #[trigger] u.subrange(i, q),
                g,
            ) && u[q] == dec && all_digits(u.skip(q + 1));
        assert(u.subrange(i, q)[0] == u[i]);
        assert(u[i] == g);
        assert forall|k: int| 0 <= k < i implies is_ascii_digit(#[trigger] u[k]) by {
            assert(u.take(i)[k] == u[k]);
        }
        lemma_digit_prefix_len_unique(u, i);
        assert(p == i);
        assert(t[q - p] == u[q]);
        assert forall|k: int| q - p < k < t.len() implies #[trigger] t[k] != dec by {
            assert(t[k] == u[p + k]);
            assert(u[p + k] == u.skip(q + 1)[p + k - q - 1]);
            assert(is_ascii_digit(u.skip(q + 1)[p + k - q - 1]));
        }
        lemma_last_index_of_char(t, dec, q - p);
        assert(t.take(q - p) =~= u.subrange(i, q));
        assert(t.skip(q - p + 1) =~= u.skip(q + 1));
    }
}

/// Removing a character distributes over concatenation.
proof fn lemma_without_char_concat(a: Seq<char>, b: Seq<char>, c: char)
    ensures
        without_char(a + b, c) == without_char(a, c) + without_char(b, c),
    decreases a.len(),
{
    if a.len() == 0 {
        assert(a + b =~= b);
        assert(without_char(a, c) + without_char(b, c) =~= without_char(b, c));
    } else {
        assert((a + b)[0] == a[0]);
        assert((a + b).drop_first() =~= a.drop_first() + b);
        lemma_without_char_concat(a.drop_first(), b, c);
        if a[0] == c {
        } else {
            assert(seq![a[0]] + (without_char(a.drop_first(), c) + without_char(b, c)) =~= (
            seq![a[0]] + without_char(a.drop_first(), c)) + without_char(b, c));
        }
    }
}

/// Removing a character that does not occur leaves the text unchanged.
proof fn lemma_without_char_absent(s: Seq<char>, c: char)
    requires
        forall|i: int| 0 <= i < s.len() ==> #[trigger] s[i] != c,
    ensures
        without_char(s, c) == s,
    decreases s.len(),
{
    if s.len() == 0 {
        assert(without_char(s, c) =~= s);
    } else {
        assert(s[0] != c);
        assert forall|i: int| 0 <= i < s.drop_first().len() implies #[trigger] s.drop_first()[i]
            != c by {
            assert(s.drop_first()[i] == s[i + 1]);
        }
        lemma_without_char_absent(s.drop_first(), c);
        assert(seq![s[0]] + s.drop_first() =~= s);
    }
}

/// A run of whole grouping blocks in front can be cancelled: the whole text
/// is block-shaped exactly when the remainder is.
proof fn lemma_group_blocks_cancel(a: Seq<char>, b: Seq<char>, g: char)
    requires
        group_blocks(a, g),
    ensures
        group_blocks(a + b, g) == group_blocks(b, g),
    decreases a.len(),
{
    if a.len() == 0 {
        assert(a + b =~= b);
    } else {
        assert((a + b).len() >= 4);
        assert((a + b)[0] == a[0]);
        assert((a + b)[1] == a[1]);
        assert((a + b)[2] == a[2]);
        assert((a + b)[3] == a[3]);
        assert((a + b).skip(4) =~= a.skip(4) + b);
        lemma_group_blocks_cancel(a.skip(4), b, g);
    }
}

/// One grouping block — the grouping character and three digits — is a run
/// of blocks.
proof fn lemma_single_block(g: char, x: char, y: char, z: char)
    requires
        is_ascii_digit(x),
        is_ascii_digit(y),
        is_ascii_digit(z),
    ensures
        group_blocks(seq![g, x, y, z], g),
{
    let s = seq![g, x, y, z];
    assert(s.skip(4) =~= Seq::<char>::empty());
    assert(group_blocks(s.skip(4), g));
}

/// The shape of grouped digits: the original digits are recovered by
/// removing the grouping character; a short run stays as it is; a longer run
/// is a digit prefix followed by whole grouping blocks; and every character
/// is a digit or the grouping character.
proof fn lemma_grouped_structure(digits: Seq<char>, g: char)
    requires
        digits.len() > 0,
        all_digits(digits),
        !is_ascii_digit(g),
    ensures
        spec_grouped(digits, g).len() >= digits.len(),
        spec_grouped(digits, g)[0] == digits[0],
        without_char(spec_grouped(digits, g), g) == digits,
        forall|i: int|
            0 <= i < spec_grouped(digits, g).len() ==> (is_ascii_digit(
                #[trigger] spec_grouped(digits, g)[i],
            ) || spec_grouped(digits, g)[i] == g),
        digits.len() <= 3 ==> spec_grouped(digits, g) == digits,
        digits.len() > 3 ==> 1 <= digit_prefix_len(spec_grouped(digits, g)) < spec_grouped(
            digits,
            g,
        ).len() && group_blocks(
            spec_grouped(digits, g).skip(digit_prefix_len(spec_grouped(digits, g))),
            g,
        ),
    decreases digits.len(),
{
    let grouped = spec_grouped(digits, g);
    if digits.len() <= 3 {
        lemma_without_char_absent(digits, g);
    } else {
        let head = digits.take(digits.len() - 3);
        let tail3 = digits.skip(digits.len() - 3);
        assert forall|i: int| 0 <= i < head.len() implies is_ascii_digit(#[trigger] head[i]) by {
            assert(head[i] == digits[i]);
        }
        lemma_grouped_structure(head, g);
        let gh = spec_grouped(head, g);
        assert(grouped == gh + seq![g] + tail3);
        assert(grouped[0] == gh[0]);
        // the removed-separator digits
        lemma_without_char_concat(gh + seq![g], tail3, g);
        lemma_without_char_concat(gh, seq![g], g);
        assert(seq![g].drop_first() =~= Seq::<char>::empty());
        assert(without_char(Seq::<char>::empty(), g) =~= Seq::<char>::empty());
        assert(seq![g][0] == g);
        assert(without_char(seq![g], g) =~= Seq::<char>::empty());
        assert forall|i: int| 0 <= i < tail3.len() implies #[trigger] tail3[i] != g by {
            assert(tail3[i] == digits[digits.len() - 3 + i]);
        }
        lemma_without_char_absent(tail3, g);
        assert(without_char(gh, g) + Seq::<char>::empty() =~= without_char(gh, g));
        assert(without_char(grouped, g) =~= head + tail3);
        assert(head + tail3 =~= digits);
        // character classes
        assert forall|i: int|
            0 <= i < grouped.len() implies (is_ascii_digit(#[trigger] grouped[i]) || grouped[i]
            == g) by {
            if i < gh.len() {
                assert(grouped[i] == gh[i]);
            } else if i == gh.len() {
                assert(grouped[i] == g);
            } else {
                assert(grouped[i] == tail3[i - gh.len() - 1]);
                assert(is_ascii_digit(digits[digits.len() - 3 + (i - gh.len() - 1)]));
            }
        }
        // the digit prefix and the blocks after it
        assert(is_ascii_digit(tail3[0]) && is_ascii_digit(tail3[1]) && is_ascii_digit(tail3[2]));
        lemma_single_block(g, tail3[0], tail3[1], tail3[2]);
        assert(seq![g] + tail3 =~= seq![g, tail3[0], tail3[1], tail3[2]]);
        if head.len() <= 3 {
            assert(gh == head);
            assert forall|i: int| 0 <= i < head.len() implies is_ascii_digit(
                #[trigger] grouped[i],
            ) by {
                assert(grouped[i] == head[i]);
            }
            assert(grouped[head.len() as int] == g);
            lemma_digit_prefix_len_unique(grouped, head.len() as int);
            assert(grouped.skip(head.len() as int) =~= seq![g] + tail3);
        } else {
            let ph = digit_prefix_len(gh);
            lemma_digit_prefix_len(gh);
            assert(gh.skip(ph)[0] == gh[ph]);
            assert(gh[ph] == g);
            assert forall|i: int| 0 <= i < ph implies is_ascii_digit(#[trigger] grouped[i]) by {
                assert(grouped[i] == gh[i]);
            }
            assert(grouped[ph] == gh[ph]);
            lemma_digit_prefix_len_unique(grouped, ph);
            lemma_group_blocks_cancel(gh.skip(ph), seq![g] + tail3, g);
            assert(grouped.skip(ph) =~= gh.skip(ph) + (seq![g] + tail3));
        }
    }
}

/// The round trip over one candidate table: formatting a well-formed
/// normalized number under settings `cs` and matching it against the five
/// candidates — the common whole pattern and the four patterns of one
/// culture — always finds a match, and converting the match back yields the
/// number unchanged.
#[verifier::rlimit(100)]
proof fn lemma_round_trip_core(
    cands: Seq<ParsingPatternView>,
    n: NormalizedNumberView,
    cs: SettingsView,
    gsep: Separator,
    dsep: Separator,
)
    requires
        n.wf(),
        match n.fractional_digits {
            Some(f) => f.len() > 0,
            None => true,
        },
        gsep.spec_char() == cs.thousand_char(),
        dsep.spec_char() == cs.decimal_char(),
        cs.thousand_char() != cs.decimal_char(),
        !is_ascii_digit(cs.thousand_char()),
        !is_ascii_digit(cs.decimal_char()),
        !is_sign_char(cs.thousand_char()),
        !is_sign_char(cs.decimal_char()),
        cands.len() == 5,
        cands[0] == spec_common_simple_whole(),
        cands[1].regex.body == (PatternBody::DecimalSimple { dec: dsep }),
        cands[1].culture_settings == Some(cs),
        cands[1].number_type == NumberType::DECIMAL,
        cands[2].regex.body == (PatternBody::DecimalNoWhole { dec: dsep }),
        cands[3].regex.body == (PatternBody::GroupedWhole { group: gsep }),
        cands[3].culture_settings == Some(cs),
        cands[3].number_type == NumberType::WHOLE,
        cands[4].regex.body == (PatternBody::GroupedDecimal { group: gsep, dec: dsep }),
        cands[4].culture_settings == Some(cs),
        cands[4].number_type == NumberType::DECIMAL,
    ensures
        ({
            let s = spec_format(n, cs);
            match spec_first_match_index(cands, s) {
                Some(i) => spec_convert(s, cands[i].culture_settings, cands[i].number_type)
                    == Some(n),
                None => false,
            }
        }),
{
    let s = spec_format(n, cs);
    let g = cs.thousand_char();
    let d = cs.decimal_char();
    let digits = n.integer_digits;
    lemma_grouped_structure(digits, g);
    let grouped = spec_grouped(digits, g);
    let frac_text = match n.fractional_digits {
        Some(f) => seq![d] + f,
        None => Seq::<char>::empty(),
    };
    let w = grouped + frac_text;
    // the sign strips off and the rest is the unsigned content
    if n.sign == Sign::Negative {
        assert(s =~= seq!['-'] + w);
        assert(s[0] == '-');
        assert(unsigned_part(s) =~= w);
        assert(spec_sign_of(s) == Sign::Negative);
    } else {
        assert(s =~= w);
        assert(s[0] == grouped[0]);
        assert(is_ascii_digit(s[0]));
        assert(!is_sign_char(s[0]));
        assert(unsigned_part(s) == s);
        assert(spec_sign_of(s) == Sign::Positive);
    }
    assert(unsigned_part(s) =~= w);
    // no decimal separator occurs in the grouped digits
    assert forall|i: int| 0 <= i < grouped.len() implies #[trigger] grouped[i] != d by {
        assert(is_ascii_digit(grouped[i]) || grouped[i] == g);
    }
    match n.fractional_digits {
        None => {
            assert(w =~= grouped);
            if digits.len() <= 3 {
                // the common whole pattern matches first
                assert(grouped == digits);
                assert(u_simple_whole(w));
                assert(cands[0].regex.spec_matches(s));
                assert(spec_first_match_index(cands, s) == Some(0int));
                assert(spec_stripped(s, None) == w);
                assert(spec_convert(s, None, NumberType::WHOLE) == Some(
                    NormalizedNumberView {
                        sign: spec_sign_of(s),
                        integer_digits: w,
                        fractional_digits: None,
                    },
                ));
                assert(Some(NormalizedNumberView {
                    sign: spec_sign_of(s),
                    integer_digits: w,
                    fractional_digits: None,
                }) =~= Some(n));
            } else {
                // the grouped whole pattern matches, after three misses
                let p = digit_prefix_len(grouped);
                assert(grouped.skip(p)[0] == grouped[p]);
                assert(grouped[p] == g);
                assert(!all_digits(w)) by {
                    assert(w[p] == g);
                }
                assert(!u_simple_whole(w));
                assert(!u_decimal_simple(w, d)) by {
                    assert(w[p] != d);
                }
                assert(!u_decimal_no_whole(w, d)) by {
                    assert(w[0] == digits[0]);
                }
                assert(u_grouped_whole(w, g));
                assert(!cands[0].regex.spec_matches(s));
                assert(!cands[1].regex.spec_matches(s));
                assert(!cands[2].regex.spec_matches(s));
                assert(cands[3].regex.spec_matches(s));
                assert(cands.skip(3)[0] == cands[3]);
                assert(spec_first_match_index(cands.skip(3), s) == Some(0int));
                assert(cands.skip(2)[0] == cands[2]);
                assert(cands.skip(2).drop_first() =~= cands.skip(3));
                assert(spec_first_match_index(cands.skip(2), s) == Some(1int));
                assert(cands.skip(1)[0] == cands[1]);
                assert(cands.skip(1).drop_first() =~= cands.skip(2));
                assert(spec_first_match_index(cands.skip(1), s) == Some(2int));
                assert(cands.drop_first() =~= cands.skip(1));
                assert(spec_first_match_index(cands, s) == Some(3int));
                // conversion strips the grouping back out
                assert(spec_stripped(s, Some(cs)) == without_char(w, g));
                assert(without_char(w, g) == digits);
                assert(spec_convert(s, Some(cs), NumberType::WHOLE) == Some(
                    NormalizedNumberView {
                        sign: spec_sign_of(s),
                        integer_digits: digits,
                        fractional_digits: None,
                    },
                ));
                assert(Some(NormalizedNumberView {
                    sign: spec_sign_of(s),
                    integer_digits: digits,
                    fractional_digits: None,
                }) =~= Some(n));
            }
        },
        Some(f) => {
            assert(all_digits(f));
            assert(frac_text == seq![d] + f);
            assert(w[grouped.len() as int] == frac_text[0]);
            assert(frac_text[0] == d);
            assert forall|k: int| grouped.len() < k < w.len() implies #[trigger] w[k] != d by {
                assert(w[k] == frac_text[k - grouped.len()]);
                assert(frac_text[k - grouped.len()] == f[k - grouped.len() - 1]);
                assert(is_ascii_digit(f[k - grouped.len() - 1]));
            }
            // the digit prefix of w is the digit prefix of the grouped part
            let p = digit_prefix_len(grouped);
            lemma_digit_prefix_len(grouped);
            if digits.len() <= 3 {
                assert(grouped == digits);
                assert(p == digits.len()) by {
                    lemma_digit_prefix_len_unique(grouped, digits.len() as int);
                }
            } else {
                assert(grouped.skip(p)[0] == grouped[p]);
                assert(grouped[p] == g);
            }
            assert forall|i: int| 0 <= i < p implies is_ascii_digit(#[trigger] w[i]) by {
                assert(w[i] == grouped[i]);
            }
            if p < grouped.len() {
                assert(w[p] == grouped[p]);
                lemma_digit_prefix_len_unique(w, p);
            } else {
                assert(w[p] == d);
                lemma_digit_prefix_len_unique(w, p);
            }
            assert(digit_prefix_len(w) == p);
            assert(!all_digits(w)) by {
                if p < grouped.len() {
                    assert(w[p] == g);
                } else {
                    assert(w[p] == d);
                }
            }
            assert(!u_simple_whole(w));
            assert(!cands[0].regex.spec_matches(s));
            // conversion below needs: removing the grouping gives digits,
            // decimal separator, fraction
            assert forall|i: int| 0 <= i < frac_text.len() implies #[trigger] frac_text[i]
                != g by {
                if i > 0 {
                    assert(frac_text[i] == f[i - 1]);
                    assert(is_ascii_digit(f[i - 1]));
                }
            }
            lemma_without_char_concat(grouped, frac_text, g);
            lemma_without_char_absent(frac_text, g);
            let t = without_char(w, g);
            assert(t == digits + frac_text);
            assert forall|k: int| 0 <= k < digits.len() implies #[trigger] t[k] != d by {
                assert(t[k] == digits[k]);
                assert(is_ascii_digit(digits[k]));
            }
            assert(t[digits.len() as int] == frac_text[0]);
            lemma_first_index_of_char(t, d, digits.len() as int);
            assert(first_index_of(t, d) == Some(digits.len() as int));
            assert(t.take(digits.len() as int) =~= digits);
            assert(t.skip(digits.len() as int + 1) =~= f);
            assert(spec_convert(s, Some(cs), NumberType::DECIMAL) == Some(
                NormalizedNumberView {
                    sign: spec_sign_of(s),
                    integer_digits: digits,
                    fractional_digits: Some(f),
                },
            ));
            assert(Some(NormalizedNumberView {
                sign: spec_sign_of(s),
                integer_digits: digits,
                fractional_digits: Some(f),
            }) =~= Some(n));
            if digits.len() <= 3 {
                // the simple decimal pattern matches second
                assert(u_decimal_simple(w, d)) by {
                    assert(w[p] == d);
                    assert(w.len() == digits.len() + 1 + f.len());
                    assert forall|i: int| 0 <= i < w.skip(p + 1).len() implies is_ascii_digit(
                        #[trigger] w.skip(p + 1)[i],
                    ) by {
                        assert(w.skip(p + 1)[i] == w[p + 1 + i]);
                        assert(w[p + 1 + i] == frac_text[p + 1 + i - grouped.len()]);
                    }
                }
                assert(cands[1].regex.spec_matches(s));
                assert(cands.skip(1)[0] == cands[1]);
                assert(spec_first_match_index(cands.skip(1), s) == Some(0int));
                assert(cands.drop_first() =~= cands.skip(1));
                assert(spec_first_match_index(cands, s) == Some(1int));
            } else {
                // the grouped decimal pattern matches last
                assert(!u_decimal_simple(w, d)) by {
                    assert(w[p] == g);
                }
                assert(!u_decimal_no_whole(w, d)) by {
                    assert(w[0] == digits[0]);
                }
                let blocks = grouped.skip(p);
                let tw = w.skip(p);
                assert(tw =~= blocks + frac_text);
                assert(!u_grouped_whole(w, g)) by {
                    lemma_group_blocks_cancel(blocks, frac_text, g);
                    assert(frac_text[0] == d);
                    assert(!group_blocks(frac_text, g));
                }
                assert(u_grouped_decimal(w, g, d)) by {
                    assert(tw[blocks.len() as int] == frac_text[0]);
                    assert forall|k: int| blocks.len() < k < tw.len() implies #[trigger] tw[k]
                        != d by {
                        assert(tw[k] == frac_text[k - blocks.len()]);
                        assert(frac_text[k - blocks.len()] == f[k - blocks.len() - 1]);
                        assert(is_ascii_digit(f[k - blocks.len() - 1]));
                    }
                    lemma_last_index_of_char(tw, d, blocks.len() as int);
                    assert(last_index_of(tw, d) == Some(blocks.len() as int));
                    assert(tw.take(blocks.len() as int) =~= blocks);
                    assert(tw.skip(blocks.len() as int + 1) =~= f);
                }
                assert(!cands[1].regex.spec_matches(s));
                assert(!cands[2].regex.spec_matches(s));
                assert(!cands[3].regex.spec_matches(s));
                assert(cands[4].regex.spec_matches(s));
                assert(cands.skip(4)[0] == cands[4]);
                assert(spec_first_match_index(cands.skip(4), s) == Some(0int));
                assert(cands.skip(3)[0] == cands[3]);
                assert(cands.skip(3).drop_first() =~= cands.skip(4));
                assert(spec_first_match_index(cands.skip(3), s) == Some(1int));
                assert(cands.skip(2)[0] == cands[2]);
                assert(cands.skip(2).drop_first() =~= cands.skip(3));
                assert(spec_first_match_index(cands.skip(2), s) == Some(2int));
                assert(cands.skip(1)[0] == cands[1]);
                assert(cands.skip(1).drop_first() =~= cands.skip(2));
                assert(spec_first_match_index(cands.skip(1), s) == Some(3int));
                assert(cands.drop_first() =~= cands.skip(1));
                assert(spec_first_match_index(cands, s) == Some(4int));
            }
        },
    }
}

/// The round trip: formatting a well-formed normalized number (with a
/// non-empty fractional part, if one is present) under any built-in culture
/// and matching the text back under that culture's hint always succeeds, and
/// converting the match reproduces the number exactly — same sign, same
/// integer digits, same fractional digits.
pub proof fn lemma_format_round_trip(
    p: NumberPatternsView,
    n: NormalizedNumberView,
    culture: Culture,
)
    requires
        p == spec_default_registry(),
        n.wf(),
        match n.fractional_digits {
            Some(f) => f.len() > 0,
            None => true,
        },
    ensures
        ({
            let s = spec_format(n, spec_settings_of(culture));
            let cands = spec_candidates(p, Some(culture));
            match spec_first_match_index(cands, s) {
                Some(i) => spec_convert(s, cands[i].culture_settings, cands[i].number_type)
                    == Some(n),
                None => false,
            }
        }),
{
    lemma_builtin_culture_groups();
    let cs = spec_settings_of(culture);
    let cands = spec_candidates(p, Some(culture));
    match culture {
        Culture::French => {
            assert(cands == p.common + spec_fr_patterns());
            assert(cands.len() == 5);
            assert(cands[0] == p.common[0]);
            assert(cands[1] == spec_fr_patterns()[0]);
            assert(cands[2] == spec_fr_patterns()[1]);
            assert(cands[3] == spec_fr_patterns()[2]);
            assert(cands[4] == spec_fr_patterns()[3]);
            assert(cs.thousand_char() == ' ');
            assert(cs.decimal_char() == ',');
            lemma_round_trip_core(cands, n, cs, Separator::SPACE, Separator::COMMA);
        },
        Culture::English => {
            assert(cands == p.common + spec_en_patterns());
            assert(cands.len() == 5);
            assert(cands[0] == p.common[0]);
            assert(cands[1] == spec_en_patterns()[0]);
            assert(cands[2] == spec_en_patterns()[1]);
            assert(cands[3] == spec_en_patterns()[2]);
            assert(cands[4] == spec_en_patterns()[3]);
            assert(cs.thousand_char() == ',');
            assert(cs.decimal_char() == '.');
            lemma_round_trip_core(cands, n, cs, Separator::COMMA, Separator::DOT);
        },
        Culture::Italian => {
            assert(cands == p.common + spec_it_patterns());
            assert(cands.len() == 5);
            assert(cands[0] == p.common[0]);
            assert(cands[1] == spec_it_patterns()[0]);
            assert(cands[2] == spec_it_patterns()[1]);
            assert(cands[3] == spec_it_patterns()[2]);
            assert(cands[4] == spec_it_patterns()[3]);
            assert(cs.thousand_char() == '.');
            assert(cs.decimal_char() == ',');
            lemma_round_trip_core(cands, n, cs, Separator::DOT, Separator::COMMA);
        },
    }
}

} // verus!
