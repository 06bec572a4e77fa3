use vstd::prelude::*;

verus! {

// ---------------------------------------------------------------------------
// Character-sequence model: the string operations the updater's rules are
// written in (splitting annotation lists, trimming, prefix/suffix tests).
// ---------------------------------------------------------------------------

pub open spec fn is_space_char(c: char) -> bool {
    c == ' ' || c == '\t' || c == '\n' || c == '\r'
}

/// Splitting on a separator: an empty input yields one empty piece, and each
/// separator ends the current piece, so `n` separators yield `n + 1` pieces.
pub open spec fn split_on(s: Seq<char>, sep: char) -> Seq<Seq<char>>
    decreases s.len(),
{
    if s.len() == 0 {
        seq![Seq::<char>::empty()]
    } else if s[0] == sep {
        seq![Seq::<char>::empty()] + split_on(s.drop_first(), sep)
    } else {
        let rest = split_on(s.drop_first(), sep);
        seq![seq![s[0]] + rest[0]] + rest.drop_first()
    }
}

/// Splitting at the first occurrence of a separator, if there is one.
pub open spec fn split_once_at(s: Seq<char>, sep: char) -> Option<(Seq<char>, Seq<char>)>
    decreases s.len(),
{
    if s.len() == 0 {
        None
    } else if s[0] == sep {
        Some((Seq::<char>::empty(), s.drop_first()))
    } else {
        match split_once_at(s.drop_first(), sep) {
            None => None,
            Some(p) => Some((seq![s[0]] + p.0, p.1)),
        }
    }
}

pub open spec fn starts_with(s: Seq<char>, p: Seq<char>) -> bool {
    p.len() <= s.len() && s.take(p.len() as int) == p
}

pub open spec fn ends_with(s: Seq<char>, p: Seq<char>) -> bool {
    p.len() <= s.len() && s.skip(s.len() - p.len()) == p
}

/// Strips every repetition of a leading prefix, as `str::trim_start_matches` does.
pub open spec fn strip_prefix_all(s: Seq<char>, p: Seq<char>) -> Seq<char>
    decreases s.len(),
{
    if p.len() > 0 && starts_with(s, p) {
        strip_prefix_all(s.skip(p.len() as int), p)
    } else {
        s
    }
}

/// Strips every repetition of a trailing suffix, as `str::trim_end_matches` does.
pub open spec fn strip_suffix_all(s: Seq<char>, p: Seq<char>) -> Seq<char>
    decreases s.len(),
{
    if p.len() > 0 && ends_with(s, p) {
        strip_suffix_all(s.take(s.len() - p.len()), p)
    } else {
        s
    }
}

pub open spec fn trim_start_spaces(s: Seq<char>) -> Seq<char>
    decreases s.len(),
{
    if s.len() > 0 && is_space_char(s[0]) {
        trim_start_spaces(s.drop_first())
    } else {
        s
    }
}

pub open spec fn trim_end_spaces(s: Seq<char>) -> Seq<char>
    decreases s.len(),
{
    if s.len() > 0 && is_space_char(s.last()) {
        trim_end_spaces(s.drop_last())
    } else {
        s
    }
}

pub open spec fn trim_spaces(s: Seq<char>) -> Seq<char> {
    trim_end_spaces(trim_start_spaces(s))
}

// ---------------------------------------------------------------------------
// Trusted edges between `String` and `Vec<char>`.
// ---------------------------------------------------------------------------

/// Relies on str::chars: it yields exactly the characters of the string, in order.
#[verifier::external_body]
pub fn chars_of(s: &str) -> (r: Vec<char>)
    ensures
        r@ == s@,
{
    let mut v: Vec<char> = Vec::new();
    for c in s.chars() {
        v.push(c);
    }
    v
}

/// Relies on String::push: it appends one character, so the result holds
/// exactly the given characters, in order.
#[verifier::external_body]
pub fn string_of(v: &Vec<char>) -> (r: String)
    ensures
        r@ == v@,
{
    let mut s = String::new();
    for c in v.iter() {
        s.push(*c);
    }
    s
}

// ---------------------------------------------------------------------------
// Verified executable utilities.
// ---------------------------------------------------------------------------

pub fn is_space(c: char) -> (r: bool)
    ensures
        r == is_space_char(c),
{
    c == ' ' || c == '\t' || c == '\n' || c == '\r'
}

pub fn subrange_chars(s: &Vec<char>, i: usize, j: usize) -> (r: Vec<char>)
    requires
        i <= j <= s@.len(),
    ensures
        r@ == s@.subrange(i as int, j as int),
{
    let mut r: Vec<char> = Vec::new();
    let mut k: usize = i;
    while k < j
        invariant
            i <= k <= j <= s@.len(),
            r@ == s@.subrange(i as int, k as int),
        decreases j - k,
    {
        r.push(s[k]);
        proof {
            assert(s@.subrange(i as int, k + 1 as int) =~= s@.subrange(i as int, k as int).push(
                s@[k as int],
            ));
        }
        k += 1;
    }
    r
}

pub fn eq_chars(a: &Vec<char>, b: &Vec<char>) -> (r: bool)
    ensures
        r == (a@ == b@),
{
    if a.len() != b.len() {
        return false;
    }
    let mut k: usize = 0;
    while k < a.len()
        invariant
            a@.len() == b@.len(),
            0 <= k <= a@.len(),
            forall|i: int| 0 <= i < k ==> a@[i] == b@[i],
        decreases a@.len() - k,
    {
        if a[k] != b[k] {
            return false;
        }
        k += 1;
    }
    proof {
        assert(a@ =~= b@);
    }
    true
}

pub fn has_prefix(s: &Vec<char>, p: &Vec<char>) -> (r: bool)
    ensures
        r == starts_with(s@, p@),
{
    if p.len() > s.len() {
        return false;
    }
    let head = subrange_chars(s, 0, p.len());
    proof {
        assert(s@.subrange(0, p@.len() as int) =~= s@.take(p@.len() as int));
    }
    eq_chars(&head, p)
}

pub fn has_suffix(s: &Vec<char>, p: &Vec<char>) -> (r: bool)
    ensures
        r == ends_with(s@, p@),
{
    if p.len() > s.len() {
        return false;
    }
    let tail = subrange_chars(s, s.len() - p.len(), s.len());
    proof {
        assert(s@.subrange(s@.len() - p@.len(), s@.len() as int) =~= s@.skip(
            s@.len() - p@.len(),
        ));
    }
    eq_chars(&tail, p)
}

/// First index at or after `from` holding `c`; the length when there is none.
pub fn find_from(s: &Vec<char>, from: usize, c: char) -> (r: usize)
    requires
        from <= s@.len(),
    ensures
        from <= r <= s@.len(),
        r < s@.len() ==> s@[r as int] == c,
        forall|j: int| from <= j < r ==> s@[j] != c,
{
    let mut k: usize = from;
    while k < s.len()
        invariant
            from <= k <= s@.len(),
            forall|j: int| from <= j < k ==> s@[j] != c,
        decreases s@.len() - k,
    {
        if s[k] == c {
            return k;
        }
        k += 1;
    }
    k
}

pub fn extend_chars(dst: &mut Vec<char>, src: &Vec<char>)
    ensures
        final(dst)@ == old(dst)@ + src@,
{
    let mut k: usize = 0;
    while k < src.len()
        invariant
            0 <= k <= src@.len(),
            dst@ == old(dst)@ + src@.take(k as int),
        decreases src@.len() - k,
    {
        dst.push(src[k]);
        proof {
            assert(old(dst)@ + src@.take(k + 1 as int) =~= (old(dst)@ + src@.take(k as int)).push(
                src@[k as int],
            ));
        }
        k += 1;
    }
    proof {
        assert(old(dst)@ + src@.take(src@.len() as int) =~= old(dst)@ + src@);
    }
}

pub fn concat3(a: &Vec<char>, b: &Vec<char>, c: &Vec<char>) -> (r: Vec<char>)
    ensures
        r@ == a@ + b@ + c@,
{
    let mut r: Vec<char> = Vec::new();
    proof {
        assert(r@ =~= Seq::<char>::empty());
    }
    extend_chars(&mut r, a);
    proof {
        assert(r@ =~= a@);
    }
    extend_chars(&mut r, b);
    extend_chars(&mut r, c);
    r
}

proof fn lemma_trim_start(s: Seq<char>, a: int)
    requires
        0 <= a <= s.len(),
        forall|j: int| 0 <= j < a ==> is_space_char(s[j]),
        a < s.len() ==> !is_space_char(s[a]),
    ensures
        trim_start_spaces(s) == s.skip(a),
    decreases a,
{
    if a == 0 {
        assert(s.skip(0) =~= s);
    } else {
        lemma_trim_start(s.drop_first(), a - 1);
        assert(s.drop_first().skip(a - 1) =~= s.skip(a));
    }
}

proof fn lemma_trim_end(s: Seq<char>, b: int)
    requires
        0 <= b <= s.len(),
        forall|j: int| b <= j < s.len() ==> is_space_char(s[j]),
        b > 0 ==> !is_space_char(s[b - 1]),
    ensures
        trim_end_spaces(s) == s.take(b),
    decreases s.len(),
{
    if b == s.len() {
        assert(s.take(b) =~= s);
    } else {
        assert(is_space_char(s.last()));
        lemma_trim_end(s.drop_last(), b);
        assert(s.drop_last().take(b) =~= s.take(b));
    }
}

pub fn trim_chars(s: &Vec<char>) -> (r: Vec<char>)
    ensures
        r@ == trim_spaces(s@),
{
    let mut a: usize = 0;
    while a < s.len() && is_space(s[a])
        invariant
            0 <= a <= s@.len(),
            forall|j: int| 0 <= j < a ==> is_space_char(s@[j]),
        decreases s@.len() - a,
    {
        a += 1;
    }
    proof {
        lemma_trim_start(s@, a as int);
    }
    let t = subrange_chars(s, a, s.len());
    proof {
        assert(s@.subrange(a as int, s@.len() as int) =~= s@.skip(a as int));
    }
    let mut b: usize = t.len();
    while b > 0 && is_space(t[b - 1])
        invariant
            0 <= b <= t@.len(),
            forall|j: int| b <= j < t@.len() ==> is_space_char(t@[j]),
        decreases b,
    {
        b -= 1;
    }
    proof {
        lemma_trim_end(t@, b as int);
    }
    let r = subrange_chars(&t, 0, b);
    proof {
        assert(t@.subrange(0, b as int) =~= t@.take(b as int));
    }
    r
}

proof fn lemma_split_step(s: Seq<char>, sep: char, i: int)
    requires
        0 <= i <= s.len(),
        forall|j: int| 0 <= j < i ==> s[j] != sep,
        i < s.len() ==> s[i] == sep,
    ensures
        i < s.len() ==> split_on(s, sep) == seq![s.take(i)] + split_on(s.skip(i + 1), sep),
        i == s.len() ==> split_on(s, sep) == seq![s],
    decreases i,
{
    if i == 0 {
        if s.len() == 0 {
            assert(s =~= Seq::<char>::empty());
            assert(split_on(s, sep) =~= seq![s]);
        } else {
            assert(s.take(0) =~= Seq::<char>::empty());
            assert(s.skip(1) =~= s.drop_first());
        }
    } else {
        let d = s.drop_first();
        lemma_split_step(d, sep, i - 1);
        let rest = split_on(d, sep);
        if i < s.len() {
            assert(rest == seq![d.take(i - 1)] + split_on(d.skip(i), sep));
            assert(rest[0] == d.take(i - 1));
            assert(seq![s[0]] + d.take(i - 1) =~= s.take(i));
            assert(rest.drop_first() =~= split_on(d.skip(i), sep));
            assert(d.skip(i) =~= s.skip(i + 1));
            assert(split_on(s, sep) =~= seq![s.take(i)] + split_on(s.skip(i + 1), sep));
        } else {
            assert(rest == seq![d]);
            assert(rest[0] == d);
            assert(seq![s[0]] + d =~= s);
            assert(rest.drop_first() =~= Seq::<Seq<char>>::empty());
            assert(split_on(s, sep) =~= seq![s]);
        }
    }
}

proof fn lemma_split_once_step(s: Seq<char>, sep: char, i: int)
    requires
        0 <= i <= s.len(),
        forall|j: int| 0 <= j < i ==> s[j] != sep,
        i < s.len() ==> s[i] == sep,
    ensures
        i < s.len() ==> split_once_at(s, sep) == Some((s.take(i), s.skip(i + 1))),
        i == s.len() ==> split_once_at(s, sep) is None,
    decreases i,
{
    if i == 0 {
        if s.len() > 0 {
            assert(s.take(0) =~= Seq::<char>::empty());
            assert(s.skip(1) =~= s.drop_first());
        }
    } else {
        let d = s.drop_first();
        lemma_split_once_step(d, sep, i - 1);
        if i < s.len() {
            assert(seq![s[0]] + d.take(i - 1) =~= s.take(i));
            assert(d.skip(i) =~= s.skip(i + 1));
        }
    }
}

/// Splits at the first `sep`, as `str::split_once` does.
pub fn split_once_chars(s: &Vec<char>, sep: char) -> (r: Option<(Vec<char>, Vec<char>)>)
    ensures
        match r {
            Some(p) => split_once_at(s@, sep) == Some((p.0@, p.1@)),
            None => split_once_at(s@, sep) is None,
        },
{
    let j = find_from(s, 0, sep);
    proof {
        lemma_split_once_step(s@, sep, j as int);
    }
    if j < s.len() {
        let left = subrange_chars(s, 0, j);
        let right = subrange_chars(s, j + 1, s.len());
        proof {
            assert(s@.subrange(0, j as int) =~= s@.take(j as int));
            assert(s@.subrange(j + 1 as int, s@.len() as int) =~= s@.skip(j + 1 as int));
        }
        Some((left, right))
    } else {
        None
    }
}

pub fn split_on_char(s: &Vec<char>, sep: char) -> (r: Vec<Vec<char>>)
    ensures
        r.deep_view() == split_on(s@, sep),
{
    let mut out: Vec<Vec<char>> = Vec::new();
    let mut pos: usize = 0;
    proof {
        assert(s@.skip(0) =~= s@);
        assert(out.deep_view() + split_on(s@.skip(0), sep) =~= split_on(s@.skip(0), sep));
    }
    loop
        invariant
            pos <= s@.len(),
            out.deep_view() + split_on(s@.skip(pos as int), sep) == split_on(s@, sep),
        decreases s@.len() - pos,
    {
        let j = find_from(s, pos, sep);
        let piece = subrange_chars(s, pos, j);
        let ghost suffix = s@.skip(pos as int);
        let ghost p0 = pos as int;
        proof {
            lemma_split_step(suffix, sep, j - pos);
            assert(suffix.take(j - pos) =~= s@.subrange(pos as int, j as int));
        }
        if j < s.len() {
            let ghost old_out = out.deep_view();
            out.push(piece);
            pos = j + 1;
            proof {
                assert(out.deep_view() =~~= old_out.push(piece@));
                assert(suffix.skip(j - p0 + 1) =~= s@.skip(pos as int));
                assert(old_out.push(piece@) =~= old_out + seq![piece@]);
                assert((old_out + seq![piece@]) + split_on(s@.skip(pos as int), sep) =~= old_out
                    + (seq![piece@] + split_on(suffix.skip(j - p0 + 1), sep)));
            }
        } else {
            let ghost old_out = out.deep_view();
            out.push(piece);
            proof {
                assert(piece@ =~= suffix);
                assert(out.deep_view() =~~= old_out.push(piece@));
                assert(out.deep_view() =~= old_out + seq![suffix]);
            }
            return out;
        }
    }
}

/// Strips every repetition of a leading prefix, as `str::trim_start_matches` does.
pub fn strip_prefix_all_chars(s: &Vec<char>, p: &Vec<char>) -> (r: Vec<char>)
    ensures
        r@ == strip_prefix_all(s@, p@),
{
    if p.len() == 0 {
        let r = subrange_chars(s, 0, s.len());
        proof {
            assert(s@.subrange(0, s@.len() as int) =~= s@);
        }
        return r;
    }
    let mut pos: usize = 0;
    proof {
        assert(s@.skip(0) =~= s@);
    }
    loop
        invariant
            pos <= s@.len(),
            p@.len() > 0,
            strip_prefix_all(s@.skip(pos as int), p@) == strip_prefix_all(s@, p@),
        decreases s@.len() - pos,
    {
        let rest = subrange_chars(s, pos, s.len());
        proof {
            assert(s@.subrange(pos as int, s@.len() as int) =~= s@.skip(pos as int));
        }
        if has_prefix(&rest, p) {
            proof {
                assert(s@.skip(pos as int).skip(p@.len() as int) =~= s@.skip(
                    pos + p@.len() as int,
                ));
            }
            pos = pos + p.len();
        } else {
            return rest;
        }
    }
}

/// Strips every repetition of a trailing suffix, as `str::trim_end_matches` does.
pub fn strip_suffix_all_chars(s: &Vec<char>, p: &Vec<char>) -> (r: Vec<char>)
    ensures
        r@ == strip_suffix_all(s@, p@),
{
    if p.len() == 0 {
        let r = subrange_chars(s, 0, s.len());
        proof {
            assert(s@.subrange(0, s@.len() as int) =~= s@);
        }
        return r;
    }
    let mut end: usize = s.len();
    proof {
        assert(s@.take(s@.len() as int) =~= s@);
    }
    loop
        invariant
            end <= s@.len(),
            p@.len() > 0,
            strip_suffix_all(s@.take(end as int), p@) == strip_suffix_all(s@, p@),
        decreases end,
    {
        let rest = subrange_chars(s, 0, end);
        proof {
            assert(s@.subrange(0, end as int) =~= s@.take(end as int));
        }
        if has_suffix(&rest, p) {
            proof {
                assert(s@.take(end as int).take(end - p@.len() as int) =~= s@.take(
                    end - p@.len() as int,
                ));
            }
            end = end - p.len();
        } else {
            return rest;
        }
    }
}

} // verus!
