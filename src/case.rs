//! Camel case and kebab case.
//!
//! Both converters scan the input once, left to right. Characters that are not
//! alphanumeric are never copied: they only mark a word boundary. The scans are
//! stated as spec functions over the prefix read so far.
use vstd::prelude::*;
use crate::chars::{alnum, chars_of, is_alnum, is_lower, is_upper, lower, lower_of, string_of, to_lower, to_upper, upper, upper_of};

verus! {

/// The output of the camel-case scan after reading `s`, and whether a word
/// boundary is pending (a non-alphanumeric character was read since the last
/// alphanumeric one).
pub open spec fn camel_scan(s: Seq<char>) -> (Seq<char>, bool)
    decreases s.len(),
{
    if s.len() == 0 {
        (Seq::empty(), false)
    } else {
        let (out, pending) = camel_scan(s.drop_last());
        let c = s.last();
        if !is_alnum(c) {
            (out, true)
        } else if pending && out.len() > 0 {
            (out + upper_of(c), false)
        } else {
            (out + lower_of(c), false)
        }
    }
}

/// Camel case of `s`: words are lowercased, and the first character of each
/// word after the first is uppercased.
pub open spec fn camel(s: Seq<char>) -> Seq<char> {
    camel_scan(s).0
}

/// Converts `s` to camel case. Non-alphanumeric characters are dropped; a run of
/// them before an alphanumeric character makes that character uppercase, unless
/// nothing has been written yet. Every other character is lowercased.
pub fn camel_case(s: String) -> (r: String)
    ensures
        r@ == camel(s@),
{
    let cs = chars_of(s.as_str());
    let mut out: Vec<char> = Vec::new();
    let mut pending = false;
    let mut i: usize = 0;
    while i < cs.len()
        invariant
            0 <= i <= cs@.len(),
            cs@ == s@,
            (out@, pending) == camel_scan(s@.take(i as int)),
        decreases cs@.len() - i,
    {
        let c = cs[i];
        proof {
            assert(s@.take(i + 1).drop_last() =~= s@.take(i as int));
        }
        if !alnum(c) {
            pending = true;
        } else {
            let mut m = if pending && out.len() > 0 {
                to_upper(c)
            } else {
                to_lower(c)
            };
            out.append(&mut m);
            pending = false;
        }
        i = i + 1;
    }
    proof {
        assert(s@.take(i as int) =~= s@);
    }
    string_of(&out)
}

/// The output of the kebab-case scan after reading `s`, whether a
/// non-alphanumeric character was read since the last word started, and
/// whether the last alphanumeric character read was lowercase.
pub open spec fn kebab_scan(s: Seq<char>) -> (Seq<char>, bool, bool)
    decreases s.len(),
{
    if s.len() == 0 {
        (Seq::empty(), false, false)
    } else {
        let (out, special, last_lower) = kebab_scan(s.drop_last());
        let c = s.last();
        if !is_alnum(c) {
            (out, true, last_lower)
        } else {
            let sep = (special && out.len() > 0) || (!special && last_lower && is_upper(c)
                && out.len() > 0);
            let out2 = if sep { out.push('-') } else { out };
            (out2 + lower_of(c), false, is_lower(c))
        }
    }
}

/// Kebab case of `s`: lowercased words joined by `-`.
pub open spec fn kebab(s: Seq<char>) -> Seq<char> {
    kebab_scan(s).0
}

/// Converts `s` to kebab case. Non-alphanumeric characters are dropped; a run
/// of them, or a lowercase character followed by an uppercase one, separates
/// two words with `-` (never before the first word). All characters written
/// are lowercased.
pub fn kebab_case(s: String) -> (r: String)
    ensures
        r@ == kebab(s@),
{
    let cs = chars_of(s.as_str());
    let mut out: Vec<char> = Vec::new();
    let mut special = false;
    let mut last_lower = false;
    let mut i: usize = 0;
    while i < cs.len()
        invariant
            0 <= i <= cs@.len(),
            cs@ == s@,
            (out@, special, last_lower) == kebab_scan(s@.take(i as int)),
        decreases cs@.len() - i,
    {
        let c = cs[i];
        proof {
            assert(s@.take(i + 1).drop_last() =~= s@.take(i as int));
        }
        if alnum(c) {
            if special {
                if out.len() > 0 {
                    out.push('-');
                }
                special = false;
            } else if last_lower && upper(c) && out.len() > 0 {
                out.push('-');
            }
            let mut m = to_lower(c);
            out.append(&mut m);
            last_lower = lower(c);
        } else {
            special = true;
        }
        i = i + 1;
    }
    proof {
        assert(s@.take(i as int) =~= s@);
    }
    string_of(&out)
}

/// The lowercase mappings of the characters of `s`, concatenated.
pub open spec fn lower_all(s: Seq<char>) -> Seq<char>
    decreases s.len(),
{
    if s.len() == 0 {
        Seq::empty()
    } else {
        lower_all(s.drop_last()) + lower_of(s.last())
    }
}

/// `c` is alphanumeric and is its own lowercase mapping.
pub open spec fn lower_fixed(c: char) -> bool {
    is_alnum(c) && lower_of(c) == seq![c]
}

/// On text with no special character, camel case lowercases each character.
pub proof fn lemma_camel_no_special(s: Seq<char>)
    requires
        forall|i: int| 0 <= i < s.len() ==> is_alnum(#[trigger] s[i]),
    ensures
        camel_scan(s) == (lower_all(s), false),
    decreases s.len(),
{
    if s.len() > 0 {
        lemma_camel_no_special(s.drop_last());
    }
}

/// Text made of characters that are their own lowercase mapping is unchanged
/// by lowercasing.
pub proof fn lemma_lower_all_fixed(s: Seq<char>)
    requires
        forall|i: int| 0 <= i < s.len() ==> lower_fixed(#[trigger] s[i]),
    ensures
        lower_all(s) == s,
    decreases s.len(),
{
    if s.len() > 0 {
        lemma_lower_all_fixed(s.drop_last());
        assert(lower_all(s) =~= s);
    }
}

/// Every character of `lower_all(s)` comes from the lowercase mapping of some
/// character of `s`.
pub proof fn lemma_lower_all_chars(s: Seq<char>)
    requires
        forall|i: int, j: int|
            0 <= i < s.len() && 0 <= j < lower_of(s[i]).len() ==> lower_fixed(
                #[trigger] lower_of(s[i])[j],
            ),
    ensures
        forall|k: int| 0 <= k < lower_all(s).len() ==> lower_fixed(#[trigger] lower_all(s)[k]),
    decreases s.len(),
{
    if s.len() > 0 {
        let p = s.drop_last();
        assert forall|i: int, j: int|
            0 <= i < p.len() && 0 <= j < lower_of(p[i]).len() implies lower_fixed(
            #[trigger] lower_of(p[i])[j],
        ) by {
            assert(p[i] == s[i]);
        }
        lemma_lower_all_chars(p);
        let l = lower_all(s);
        assert forall|k: int| 0 <= k < l.len() implies lower_fixed(#[trigger] l[k]) by {
            if k >= lower_all(p).len() {
                let j = k - lower_all(p).len();
                assert(l[k] == lower_of(s[s.len() - 1])[j]);
            } else {
                assert(l[k] == lower_all(p)[k]);
            }
        }
    }
}

/// Camel case is idempotent on text with no special character, provided the
/// lowercase mapping of each character consists of alphanumeric characters
/// that are their own lowercase mapping.
pub proof fn lemma_camel_idempotent(s: Seq<char>)
    requires
        forall|i: int| 0 <= i < s.len() ==> is_alnum(#[trigger] s[i]),
        forall|i: int, j: int|
            0 <= i < s.len() && 0 <= j < lower_of(s[i]).len() ==> lower_fixed(
                #[trigger] lower_of(s[i])[j],
            ),
    ensures
        camel(camel(s)) == camel(s),
{
    lemma_camel_no_special(s);
    lemma_lower_all_chars(s);
    let t = lower_all(s);
    assert forall|k: int| 0 <= k < t.len() implies is_alnum(#[trigger] t[k]) by {
        assert(lower_fixed(t[k]));
    }
    lemma_camel_no_special(t);
    lemma_lower_all_fixed(t);
}

/// `s` without its `-` characters.
pub open spec fn drop_dashes(s: Seq<char>) -> Seq<char> {
    s.filter(|c: char| c != '-')
}

/// The alphanumeric characters of `s`, in order.
pub open spec fn alnum_chars(s: Seq<char>) -> Seq<char> {
    s.filter(|c: char| is_alnum(c))
}

/// Text with no `-` is unchanged by removing dashes.
pub proof fn lemma_drop_dashes_none(s: Seq<char>)
    requires
        !s.contains('-'),
    ensures
        drop_dashes(s) == s,
    decreases s.len(),
{
    reveal(Seq::filter);
    if s.len() > 0 {
        assert(!s.drop_last().contains('-')) by {
            if s.drop_last().contains('-') {
                let i = choose|i: int| 0 <= i < s.drop_last().len() && s.drop_last()[i] == '-';
                assert(s[i] == '-');
            }
        }
        lemma_drop_dashes_none(s.drop_last());
        assert(s.last() != '-') by {
            assert(s[s.len() - 1] == s.last());
        }
        assert(drop_dashes(s) =~= s);
    }
}

/// Kebab case keeps every alphanumeric character of `s`, in order, as its
/// Unicode lowercase mapping, and drops the rest: without its `-` separators,
/// the output is the lowercase mappings of the alphanumeric characters of `s`.
/// This holds where no such mapping contains `-`.
pub proof fn lemma_kebab_keeps_characters(s: Seq<char>)
    requires
        forall|i: int| 0 <= i < s.len() && is_alnum(s[i]) ==> !(#[trigger] lower_of(s[i])).contains('-'),
    ensures
        drop_dashes(kebab(s)) == lower_all(alnum_chars(s)),
    decreases s.len(),
{
    reveal(Seq::filter);
    if s.len() > 0 {
        let p = s.drop_last();
        let c = s.last();
        assert forall|i: int| 0 <= i < p.len() && is_alnum(p[i]) implies !(#[trigger] lower_of(
            p[i],
        )).contains('-') by {
            assert(p[i] == s[i]);
        }
        lemma_kebab_keeps_characters(p);
        let (out, special, last_lower) = kebab_scan(p);
        if is_alnum(c) {
            assert(s[s.len() - 1] == c);
            assert(!lower_of(c).contains('-'));
            lemma_drop_dashes_none(lower_of(c));
            let sep = (special && out.len() > 0) || (!special && last_lower && is_upper(c)
                && out.len() > 0);
            let out2 = if sep {
                out.push('-')
            } else {
                out
            };
            assert(drop_dashes(out.push('-')) == drop_dashes(out)) by {
                assert(out.push('-').drop_last() =~= out);
            }
            assert(kebab(s) =~= out2 + lower_of(c));
            Seq::filter_distributes_over_add(out2, lower_of(c), |c: char| c != '-');
            assert(alnum_chars(s) == alnum_chars(p).push(c));
            assert(alnum_chars(p).push(c).drop_last() =~= alnum_chars(p));
        } else {
            assert(alnum_chars(s) == alnum_chars(p));
        }
    }
}

} // verus!
