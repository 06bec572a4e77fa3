use vstd::prelude::*;

use crate::chars::{chars_of, string_of, strip_prefix_all, strip_prefix_all_chars};

verus! {

// ---------------------------------------------------------------------------
// Tag resolution: filter the registry's tags by the allow-pattern, then take
// the greatest under a numeric-aware (natural) order.
// ---------------------------------------------------------------------------

#[verifier::external_type_specification]
#[verifier::external_body]
pub struct ExRegex(regex::Regex);

/// Whether a pattern compiles as a regular expression.
pub uninterp spec fn regex_valid(pattern: Seq<char>) -> bool;

/// The pattern a compiled regular expression was built from.
pub uninterp spec fn regex_pattern(re: regex::Regex) -> Seq<char>;

/// What regex::Regex::is_match returns for a pattern and a subject: a function
/// of the two strings alone.
pub uninterp spec fn regex_match(pattern: Seq<char>, s: Seq<char>) -> bool;

/// Relies on regex::Regex::new: it compiles exactly the syntactically valid
/// patterns, and the compiled value holds that pattern.
#[verifier::external_body]
pub fn regex_new(pattern: &str) -> (r: Option<regex::Regex>)
    ensures
        match r {
            Some(re) => regex_valid(pattern@) && regex_pattern(re) == pattern@,
            None => !regex_valid(pattern@),
        },
{
    regex::Regex::new(pattern).ok()
}

/// Relies on regex::Regex::is_match: a deterministic test of the subject
/// against the compiled pattern.
#[verifier::external_body]
pub fn regex_is_match(re: &regex::Regex, s: &str) -> (r: bool)
    ensures
        r == regex_match(regex_pattern(*re), s@),
{
    re.is_match(s)
}

#[verifier::external_type_specification]
#[verifier::external_body]
pub struct ExReference(oci_distribution::Reference);

/// Whether a string parses as a registry image reference.
pub uninterp spec fn valid_reference(s: Seq<char>) -> bool;

/// Relies on oci_distribution::Reference::from_str: it accepts exactly the
/// syntactically valid image references, deterministically from the string.
#[verifier::external_body]
pub fn parse_reference(url: &str) -> (r: Option<oci_distribution::Reference>)
    ensures
        r is Some <==> valid_reference(url@),
{
    <oci_distribution::Reference as std::str::FromStr>::from_str(url).ok()
}

/// The natural order on tags: `alnum_le(a, b)` says `a` sorts no later than
/// `b` under alphanumeric_sort's numeric-aware comparison.
pub uninterp spec fn alnum_le(a: Seq<char>, b: Seq<char>) -> bool;

/// alphanumeric_sort::compare_str implements a total order on strings (its
/// documented purpose is to be a sort comparator, with numeric ties broken by
/// leading zeros), so the relation is reflexive, total, transitive, and
/// antisymmetric.
pub open spec fn alnum_le_total_order() -> bool {
    &&& forall|a: Seq<char>| alnum_le(a, a)
    &&& forall|a: Seq<char>, b: Seq<char>| alnum_le(a, b) || alnum_le(b, a)
    &&& forall|a: Seq<char>, b: Seq<char>, c: Seq<char>|
        alnum_le(a, b) && alnum_le(b, c) ==> alnum_le(a, c)
    &&& forall|a: Seq<char>, b: Seq<char>| alnum_le(a, b) && alnum_le(b, a) ==> a == b
}

/// Relies on alphanumeric_sort::compare_path (on UTF-8 input it is the
/// crate's alphanumeric string comparison): a deterministic, numeric-aware
/// total order on strings.
#[verifier::external_body]
pub fn alnum_leq(a: &str, b: &str) -> (r: bool)
    ensures
        r == alnum_le(a@, b@),
        r ==> alnum_le_total_order(),
        !r ==> alnum_le_total_order(),
{
    match alphanumeric_sort::compare_path(a, b) {
        core::cmp::Ordering::Greater => false,
        _ => true,
    }
}

// ---------------------------------------------------------------------------
// The resolver's specification.
// ---------------------------------------------------------------------------

/// The filter pattern actually compiled: any `regexp:` prefixes are stripped.
pub open spec fn effective_pattern(allow_tags: Seq<char>) -> Seq<char> {
    strip_prefix_all(allow_tags, "regexp:"@)
}

pub open spec fn eligible_tags(pattern: Seq<char>, tags: Seq<Seq<char>>) -> Seq<Seq<char>> {
    tags.filter(|t: Seq<char>| regex_match(pattern, t))
}

/// The greatest tag under the natural order; among tags the order ties, the
/// later one wins.
pub open spec fn alnum_max(tags: Seq<Seq<char>>) -> Seq<char>
    decreases tags.len(),
{
    if tags.len() <= 1 {
        tags[0]
    } else {
        let m = alnum_max(tags.drop_last());
        if alnum_le(m, tags.last()) {
            tags.last()
        } else {
            m
        }
    }
}

#[derive(Debug)]
pub enum ResolveError {
    /// The allow-pattern does not compile as a regular expression.
    InvalidPattern,
    /// No registry tag matched the allow-pattern.
    NoMatchingTag,
}

/// Resolves the latest eligible tag: compiles the allow-pattern (after
/// stripping any `regexp:` prefixes), keeps the registry tags the pattern
/// matches, and returns the greatest under the numeric-aware order.
pub fn resolve_latest_tag(allow_tags: &String, tags: &Vec<String>) -> (r: Result<
    String,
    ResolveError,
>)
    ensures
        ({
            let pat = effective_pattern(allow_tags@);
            let el = eligible_tags(pat, tags.deep_view());
            match r {
                Ok(t) => regex_valid(pat) && el.len() > 0 && t@ == alnum_max(el),
                Err(ResolveError::InvalidPattern) => !regex_valid(pat),
                Err(ResolveError::NoMatchingTag) => regex_valid(pat) && el.len() == 0,
            }
        }),
{
    let ac = chars_of(allow_tags.as_str());
    let rp = chars_of("regexp:");
    let stripped = strip_prefix_all_chars(&ac, &rp);
    let pat_s = string_of(&stripped);
    let ghost pat = effective_pattern(allow_tags@);
    let re = match regex_new(pat_s.as_str()) {
        Some(re) => re,
        None => {
            return Err(ResolveError::InvalidPattern);
        },
    };
    let ghost tagsm = tags.deep_view();
    let mut kept: Vec<String> = Vec::new();
    let mut k: usize = 0;
    proof {
        assert(tagsm.take(0) =~= Seq::<Seq<char>>::empty());
        assert(eligible_tags(pat, tagsm.take(0)) =~= Seq::<Seq<char>>::empty()) by {
            reveal(Seq::filter);
        }
        assert(kept.deep_view() =~= Seq::<Seq<char>>::empty());
    }
    while k < tags.len()
        invariant
            0 <= k <= tags@.len(),
            tags.deep_view() == tagsm,
            regex_pattern(re) == pat,
            kept.deep_view() == eligible_tags(pat, tagsm.take(k as int)),
        decreases tags@.len() - k,
    {
        proof {
            assert(tags.deep_view()[k as int] == tags@[k as int]@);
            assert(tagsm.take(k + 1).drop_last() =~= tagsm.take(k as int));
            assert(tagsm.take(k + 1).last() == tagsm[k as int]);
            reveal(Seq::filter);
        }
        let t = &tags[k];
        let ghost before = kept.deep_view();
        if regex_is_match(&re, t.as_str()) {
            kept.push(t.clone());
            proof {
                assert(kept.deep_view() =~= before.push(t@));
            }
        }
        proof {
            assert(kept.deep_view() == eligible_tags(pat, tagsm.take(k + 1)));
        }
        k += 1;
    }
    proof {
        assert(tagsm.take(tagsm.len() as int) =~= tagsm);
    }
    if kept.len() == 0 {
        return Err(ResolveError::NoMatchingTag);
    }
    let ghost el = eligible_tags(pat, tagsm);
    let mut best: String = kept[0].clone();
    let mut j: usize = 1;
    proof {
        assert(el.take(1).drop_last() =~= Seq::<Seq<char>>::empty());
        assert(el.take(1)[0] == el[0]);
        assert(best@ == alnum_max(el.take(1)));
    }
    while j < kept.len()
        invariant
            1 <= j <= kept@.len(),
            kept.deep_view() == el,
            el.len() == kept@.len(),
            best@ == alnum_max(el.take(j as int)),
        decreases kept@.len() - j,
    {
        proof {
            assert(kept.deep_view()[j as int] == kept@[j as int]@);
            assert(el.take(j + 1).drop_last() =~= el.take(j as int));
            assert(el.take(j + 1).last() == el[j as int]);
        }
        let t = &kept[j];
        if alnum_leq(best.as_str(), t.as_str()) {
            best = t.clone();
        }
        j += 1;
    }
    proof {
        assert(el.take(el.len() as int) =~= el);
    }
    Ok(best)
}

// ---------------------------------------------------------------------------
// Order-independence of resolution.
// ---------------------------------------------------------------------------

proof fn lemma_filter_sub(s: Seq<Seq<char>>, pred: spec_fn(Seq<char>) -> bool, x: Seq<char>)
    requires
        s.filter(pred).contains(x),
    ensures
        s.contains(x) && pred(x),
    decreases s.len(),
{
    reveal(Seq::filter);
    if s.len() > 0 {
        if pred(s.last()) && x == s.last() {
        } else {
            assert(s.drop_last().filter(pred).contains(x));
            lemma_filter_sub(s.drop_last(), pred, x);
            assert(s.contains(x)) by {
                let i = choose|i: int| 0 <= i < s.drop_last().len() && s.drop_last()[i] == x;
                assert(s[i] == x);
            }
        }
    }
}

proof fn lemma_alnum_max_props(tags: Seq<Seq<char>>)
    requires
        alnum_le_total_order(),
        tags.len() > 0,
    ensures
        tags.contains(alnum_max(tags)),
        forall|i: int| 0 <= i < tags.len() ==> alnum_le(#[trigger] tags[i], alnum_max(tags)),
    decreases tags.len(),
{
    if tags.len() == 1 {
        assert(tags[0] == alnum_max(tags));
    } else {
        let d = tags.drop_last();
        lemma_alnum_max_props(d);
        let m = alnum_max(d);
        assert forall|i: int| 0 <= i < tags.len() implies alnum_le(
            #[trigger] tags[i],
            alnum_max(tags),
        ) by {
            if i < tags.len() - 1 {
                assert(d[i] == tags[i]);
                assert(alnum_le(tags[i], m));
            }
        }
        if alnum_le(m, tags.last()) {
            assert(tags.contains(tags.last()));
        } else {
            let i = choose|i: int| 0 <= i < d.len() && d[i] == m;
            assert(tags[i] == m);
            assert(tags.contains(m));
        }
    }
}

/// For one allow-pattern, resolution is a function of which tags the registry
/// returned, not of the order it returned them in: tag lists with the same
/// members have the same eligible set up to order, and the same maximum. The
/// total-order hypothesis is what the comparison wrapper states of
/// alphanumeric_sort's order.
pub proof fn lemma_resolution_order_independent(
    pattern: Seq<char>,
    tags_a: Seq<Seq<char>>,
    tags_b: Seq<Seq<char>>,
)
    requires
        forall|x: Seq<char>| tags_a.contains(x) <==> tags_b.contains(x),
    ensures
        alnum_le_total_order() ==> (eligible_tags(pattern, tags_a).len() > 0 <==> eligible_tags(
            pattern,
            tags_b,
        ).len() > 0),
        (alnum_le_total_order() && eligible_tags(pattern, tags_a).len() > 0) ==> alnum_max(
            eligible_tags(pattern, tags_a),
        ) == alnum_max(eligible_tags(pattern, tags_b)),
{
    let pred = |t: Seq<char>| regex_match(pattern, t);
    let ea = tags_a.filter(pred);
    let eb = tags_b.filter(pred);
    assert forall|x: Seq<char>| #[trigger] ea.contains(x) implies eb.contains(x) by {
        lemma_filter_sub(tags_a, pred, x);
        let i = choose|i: int| 0 <= i < tags_b.len() && tags_b[i] == x;
        tags_b.lemma_filter_contains(pred, i);
    }
    assert forall|x: Seq<char>| #[trigger] eb.contains(x) implies ea.contains(x) by {
        lemma_filter_sub(tags_b, pred, x);
        let i = choose|i: int| 0 <= i < tags_a.len() && tags_a[i] == x;
        tags_a.lemma_filter_contains(pred, i);
    }
    if ea.len() > 0 {
        assert(ea.contains(ea[0]));
        assert(eb.contains(ea[0]));
        assert(eb.len() > 0);
    }
    if eb.len() > 0 {
        assert(eb.contains(eb[0]));
        assert(ea.contains(eb[0]));
        assert(ea.len() > 0);
    }
    if alnum_le_total_order() && ea.len() > 0 {
        lemma_alnum_max_props(ea);
        lemma_alnum_max_props(eb);
        let ma = alnum_max(ea);
        let mb = alnum_max(eb);
        assert(eb.contains(ma));
        assert(ea.contains(mb));
        let ia = choose|i: int| 0 <= i < ea.len() && ea[i] == mb;
        let ib = choose|i: int| 0 <= i < eb.len() && eb[i] == ma;
        assert(alnum_le(mb, ma));
        assert(alnum_le(ma, mb));
    }
}

} // verus!
