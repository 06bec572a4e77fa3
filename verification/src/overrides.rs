use vstd::prelude::*;

use crate::chars::{chars_of, concat3, extend_chars, starts_with, string_of};

verus! {

// ---------------------------------------------------------------------------
// The per-application override document: an ordered sequence of parameters,
// each pinning one value (for this updater, an image tag).
// ---------------------------------------------------------------------------

#[derive(Debug)]
pub struct Parameter {
    pub name: String,
    pub value: String,
    pub forcestring: bool,
}

pub struct ParameterView {
    pub name: Seq<char>,
    pub value: Seq<char>,
    pub forcestring: bool,
}

impl View for Parameter {
    type V = ParameterView;

    open spec fn view(&self) -> ParameterView {
        ParameterView { name: self.name@, value: self.value@, forcestring: self.forcestring }
    }
}

impl DeepView for Parameter {
    type V = ParameterView;

    open spec fn deep_view(&self) -> ParameterView {
        self.view()
    }
}

#[derive(Debug)]
pub struct ParametersOverride(pub Vec<Parameter>);

#[derive(Debug)]
pub struct HelmOverride {
    pub parameters: ParametersOverride,
}

#[derive(Debug)]
pub struct Overrides {
    pub helm: HelmOverride,
}

impl View for Overrides {
    type V = Seq<ParameterView>;

    open spec fn view(&self) -> Seq<ParameterView> {
        self.helm.parameters.0.deep_view()
    }
}

// ---------------------------------------------------------------------------
// Patching.
// ---------------------------------------------------------------------------

/// How one parameter reacts to a patch: an entry whose name matches and whose
/// value differs takes the resolved tag; every other entry is untouched.
pub open spec fn patch_one(p: ParameterView, name: Seq<char>, tag: Seq<char>) -> ParameterView {
    if p.name == name && p.value != tag {
        ParameterView { name: p.name, value: tag, forcestring: p.forcestring }
    } else {
        p
    }
}

pub open spec fn patched(ps: Seq<ParameterView>, name: Seq<char>, tag: Seq<char>) -> Seq<
    ParameterView,
> {
    ps.map_values(|p: ParameterView| patch_one(p, name, tag))
}

pub open spec fn any_would_change(ps: Seq<ParameterView>, name: Seq<char>, tag: Seq<char>) -> bool {
    exists|i: int| 0 <= i < ps.len() && ps[i].name == name && ps[i].value != tag
}

impl Overrides {
    pub fn new_empty() -> (r: Overrides)
        ensures
            r@ == Seq::<ParameterView>::empty(),
    {
        let r = Overrides { helm: HelmOverride { parameters: ParametersOverride(Vec::new()) } };
        proof {
            assert(r@ =~= Seq::<ParameterView>::empty());
        }
        r
    }

    /// Applies a resolved tag: every parameter whose name matches and whose
    /// value differs is set to the tag; reports whether anything changed.
    /// No entry is ever inserted: a document without a matching parameter is
    /// left as it is.
    pub fn apply(&mut self, parameter_name: &String, tag: &String) -> (changed: bool)
        ensures
            final(self)@ == patched(old(self)@, parameter_name@, tag@),
            changed == any_would_change(old(self)@, parameter_name@, tag@),
    {
        let ghost psm = self@;
        let mut newv: Vec<Parameter> = Vec::new();
        let mut changed = false;
        let mut k: usize = 0;
        let n = self.helm.parameters.0.len();
        while k < n
            invariant
                0 <= k <= n,
                n == self.helm.parameters.0@.len(),
                self@ == psm,
                newv.deep_view().len() == k,
                forall|i: int|
                    0 <= i < k ==> newv.deep_view()[i] == patch_one(
                        psm[i],
                        parameter_name@,
                        tag@,
                    ),
                changed == exists|i: int|
                    0 <= i < k && psm[i].name == parameter_name@ && psm[i].value != tag@,
            decreases n - k,
        {
            let ghost before_dv = newv.deep_view();
            let p = &self.helm.parameters.0[k];
            proof {
                assert(self.helm.parameters.0.deep_view()[k as int] == self.helm.parameters.0@[
                    k as int]@);
                assert(p@ == psm[k as int]);
            }
            let name_matches = p.name == *parameter_name;
            let value_differs = !(p.value == *tag);
            if name_matches && value_differs {
                let q = Parameter {
                    name: p.name.clone(),
                    value: tag.clone(),
                    forcestring: p.forcestring,
                };
                proof {
                    assert(q@ == patch_one(psm[k as int], parameter_name@, tag@));
                }
                newv.push(q);
                changed = true;
                proof {
                    assert(newv.deep_view() =~= before_dv.push(
                        patch_one(psm[k as int], parameter_name@, tag@),
                    ));
                    assert(psm[k as int].name == parameter_name@ && psm[k as int].value != tag@);
                }
            } else {
                let q = Parameter {
                    name: p.name.clone(),
                    value: p.value.clone(),
                    forcestring: p.forcestring,
                };
                proof {
                    assert(q@ == patch_one(psm[k as int], parameter_name@, tag@));
                }
                newv.push(q);
                proof {
                    assert(newv.deep_view() =~= before_dv.push(
                        patch_one(psm[k as int], parameter_name@, tag@),
                    ));
                    assert(!(psm[k as int].name == parameter_name@ && psm[k as int].value != tag@));
                }
            }
            k += 1;
        }
        self.helm.parameters.0 = newv;
        proof {
            assert(final(self)@ =~= patched(psm, parameter_name@, tag@));
        }
        changed
    }

    /// The parameter sequence, for callers outside the verified world.
    pub fn parameters(&self) -> (r: &Vec<Parameter>)
        ensures
            r.deep_view() == self@,
    {
        &self.helm.parameters.0
    }
}

impl Default for Overrides {
    /// The document an absent override file stands for: no parameters.
    fn default() -> (r: Overrides)
        ensures
            r@ == Seq::<ParameterView>::empty(),
    {
        Overrides::new_empty()
    }
}

/// Applying the same resolved tag twice changes nothing the second time:
/// the patched document is a fixed point of the same patch.
pub proof fn lemma_apply_idempotent(ps: Seq<ParameterView>, name: Seq<char>, tag: Seq<char>)
    ensures
        patched(patched(ps, name, tag), name, tag) == patched(ps, name, tag),
        !any_would_change(patched(ps, name, tag), name, tag),
{
    let once = patched(ps, name, tag);
    assert forall|i: int| 0 <= i < once.len() implies !(once[i].name == name && once[i].value
        != tag) by {
        assert(once[i] == patch_one(ps[i], name, tag));
    }
    assert(patched(once, name, tag) =~= once);
}

// ---------------------------------------------------------------------------
// Where the override document lives.
// ---------------------------------------------------------------------------

pub open spec fn override_file_name_spec(app: Seq<char>) -> Seq<char> {
    ".argocd-source-"@ + app + ".yaml"@
}

/// The override file's name for an application: `.argocd-source-<app>.yaml`.
pub fn override_file_name(app_name: &String) -> (r: String)
    ensures
        r@ == override_file_name_spec(app_name@),
{
    let pre = chars_of(".argocd-source-");
    let app = chars_of(app_name.as_str());
    let suf = chars_of(".yaml");
    let joined = concat3(&pre, &app, &suf);
    string_of(&joined)
}

pub open spec fn override_rel_path_spec(path: Seq<char>, app: Seq<char>) -> Seq<char> {
    path + "/"@ + override_file_name_spec(app)
}

/// The override file's path relative to the repository root: the
/// application's source path, then the override file's name.
pub fn override_relative_path(path: &String, app_name: &String) -> (r: String)
    ensures
        r@ == override_rel_path_spec(path@, app_name@),
{
    let p = chars_of(path.as_str());
    let slash = chars_of("/");
    let file = override_file_name(app_name);
    let fc = chars_of(file.as_str());
    let joined = concat3(&p, &slash, &fc);
    string_of(&joined)
}

// ---------------------------------------------------------------------------
// Serialization: the exact text written back to an override file.
// ---------------------------------------------------------------------------

pub open spec fn bool_text(b: bool) -> Seq<char> {
    if b {
        "true"@
    } else {
        "false"@
    }
}

/// Single-quote escaping: an embedded quote is doubled.
pub open spec fn sq_escape(s: Seq<char>) -> Seq<char>
    decreases s.len(),
{
    if s.len() == 0 {
        Seq::empty()
    } else {
        (if s[0] == '\'' {
            seq!['\'', '\'']
        } else {
            seq![s[0]]
        }) + sq_escape(s.drop_first())
    }
}

pub open spec fn quoted(s: Seq<char>) -> Seq<char> {
    seq!['\''] + sq_escape(s) + seq!['\'']
}

pub open spec fn param_text(p: ParameterView) -> Seq<char> {
    "  - name: "@ + quoted(p.name) + "\n    value: "@ + quoted(p.value) + "\n    forcestring: "@
        + bool_text(p.forcestring) + "\n"@
}

pub open spec fn params_text(ps: Seq<ParameterView>) -> Seq<char>
    decreases ps.len(),
{
    if ps.len() == 0 {
        Seq::empty()
    } else {
        param_text(ps[0]) + params_text(ps.drop_first())
    }
}

/// The document's text: the fixed `helm.parameters` shape, one block per
/// parameter, strings single-quoted.
pub open spec fn overrides_text(ps: Seq<ParameterView>) -> Seq<char> {
    if ps.len() == 0 {
        "helm:\n  parameters: []\n"@
    } else {
        "helm:\n  parameters:\n"@ + params_text(ps)
    }
}

// ---------------------------------------------------------------------------
// Reading the written text back: a parser of exactly the emitted shape, and
// the proof that it inverts the emitter, so a written document re-reads as
// the same parameter sequence.
// ---------------------------------------------------------------------------

pub open spec fn expect(s: Seq<char>, lit: Seq<char>) -> Option<Seq<char>> {
    if starts_with(s, lit) {
        Some(s.skip(lit.len() as int))
    } else {
        None
    }
}

/// The body of a single-quoted scalar: doubled quotes are one quote, a lone
/// quote closes; yields the unescaped text and what follows the close.
pub open spec fn parse_quoted_body(s: Seq<char>) -> Option<(Seq<char>, Seq<char>)>
    decreases s.len(),
{
    if s.len() == 0 {
        None
    } else if s[0] == '\'' {
        if s.len() >= 2 && s[1] == '\'' {
            match parse_quoted_body(s.skip(2)) {
                None => None,
                Some(p) => Some((seq!['\''] + p.0, p.1)),
            }
        } else {
            Some((Seq::empty(), s.drop_first()))
        }
    } else {
        match parse_quoted_body(s.drop_first()) {
            None => None,
            Some(p) => Some((seq![s[0]] + p.0, p.1)),
        }
    }
}

pub open spec fn parse_quoted(s: Seq<char>) -> Option<(Seq<char>, Seq<char>)> {
    if s.len() > 0 && s[0] == '\'' {
        parse_quoted_body(s.drop_first())
    } else {
        None
    }
}

pub open spec fn parse_bool(s: Seq<char>) -> Option<(bool, Seq<char>)> {
    if starts_with(s, "true"@) {
        Some((true, s.skip("true"@.len() as int)))
    } else if starts_with(s, "false"@) {
        Some((false, s.skip("false"@.len() as int)))
    } else {
        None
    }
}

pub open spec fn parse_param(s: Seq<char>) -> Option<(ParameterView, Seq<char>)> {
    match expect(s, "  - name: "@) {
        None => None,
        Some(s1) => match parse_quoted(s1) {
            None => None,
            Some(name_r) => match expect(name_r.1, "\n    value: "@) {
                None => None,
                Some(s2) => match parse_quoted(s2) {
                    None => None,
                    Some(value_r) => match expect(value_r.1, "\n    forcestring: "@) {
                        None => None,
                        Some(s3) => match parse_bool(s3) {
                            None => None,
                            Some(b_r) => match expect(b_r.1, "\n"@) {
                                None => None,
                                Some(s4) => Some(
                                    (
                                        ParameterView {
                                            name: name_r.0,
                                            value: value_r.0,
                                            forcestring: b_r.0,
                                        },
                                        s4,
                                    ),
                                ),
                            },
                        },
                    },
                },
            },
        },
    }
}

pub open spec fn parse_params(s: Seq<char>) -> Option<Seq<ParameterView>>
    decreases s.len(),
{
    if s.len() == 0 {
        Some(Seq::empty())
    } else {
        match parse_param(s) {
            None => None,
            Some(pr) => if pr.1.len() < s.len() {
                match parse_params(pr.1) {
                    None => None,
                    Some(ps) => Some(seq![pr.0] + ps),
                }
            } else {
                None
            },
        }
    }
}

/// The document read back from an override file's text, when the text has
/// exactly the written shape.
pub open spec fn parse_overrides(s: Seq<char>) -> Option<Seq<ParameterView>> {
    if s == "helm:\n  parameters: []\n"@ {
        Some(Seq::empty())
    } else {
        match expect(s, "helm:\n  parameters:\n"@) {
            None => None,
            Some(rest) => if rest.len() > 0 {
                parse_params(rest)
            } else {
                None
            },
        }
    }
}

proof fn lemma_expect(lit: Seq<char>, rest: Seq<char>)
    ensures
        expect(lit + rest, lit) == Some(rest),
{
    assert((lit + rest).take(lit.len() as int) =~= lit);
    assert((lit + rest).skip(lit.len() as int) =~= rest);
}

proof fn lemma_parse_quoted_body(x: Seq<char>, rest: Seq<char>)
    requires
        rest.len() > 0,
        rest[0] != '\'',
    ensures
        parse_quoted_body(sq_escape(x) + seq!['\''] + rest) == Some((x, rest)),
    decreases x.len(),
{
    let s = sq_escape(x) + seq!['\''] + rest;
    if x.len() == 0 {
        assert(sq_escape(x) =~= Seq::<char>::empty());
        assert(s =~= seq!['\''] + rest);
        assert(s[0] == '\'');
        assert(s.len() >= 2 ==> s[1] == rest[0]);
        assert(s.drop_first() =~= rest);
    } else {
        let d = x.drop_first();
        lemma_parse_quoted_body(d, rest);
        let e = sq_escape(d) + seq!['\''] + rest;
        if x[0] == '\'' {
            assert(sq_escape(x) =~= seq!['\'', '\''] + sq_escape(d));
            assert(s[0] == '\'');
            assert(s[1] == '\'');
            assert(s.skip(2) =~= e);
            assert(seq!['\''] + d =~= x);
        } else {
            assert(sq_escape(x) =~= seq![x[0]] + sq_escape(d));
            assert(s[0] == x[0]);
            assert(s.drop_first() =~= e);
            assert(seq![x[0]] + d =~= x);
        }
    }
}

proof fn lemma_parse_quoted(x: Seq<char>, rest: Seq<char>)
    requires
        rest.len() > 0,
        rest[0] != '\'',
    ensures
        parse_quoted(quoted(x) + rest) == Some((x, rest)),
{
    let s = quoted(x) + rest;
    assert(s[0] == '\'');
    assert(s.drop_first() =~= sq_escape(x) + seq!['\''] + rest);
    lemma_parse_quoted_body(x, rest);
}

proof fn lemma_parse_param(p: ParameterView, rest: Seq<char>)
    ensures
        parse_param(param_text(p) + rest) == Some((p, rest)),
        param_text(p).len() > 0,
{
    reveal_strlit("  - name: ");
    reveal_strlit("\n    value: ");
    reveal_strlit("\n    forcestring: ");
    reveal_strlit("true");
    reveal_strlit("false");
    reveal_strlit("\n");
    let tail4 = "\n"@ + rest;
    let tail3 = bool_text(p.forcestring) + tail4;
    let tail2 = "\n    forcestring: "@ + tail3;
    let tail1 = "\n    value: "@ + quoted(p.value) + tail2;
    let s = param_text(p) + rest;
    assert(s =~= "  - name: "@ + (quoted(p.name) + tail1));
    lemma_expect("  - name: "@, quoted(p.name) + tail1);
    assert(tail1[0] == '\n');
    lemma_parse_quoted(p.name, tail1);
    assert(tail1 =~= "\n    value: "@ + (quoted(p.value) + tail2));
    lemma_expect("\n    value: "@, quoted(p.value) + tail2);
    assert(tail2[0] == '\n');
    lemma_parse_quoted(p.value, tail2);
    assert(tail2 =~= "\n    forcestring: "@ + tail3);
    lemma_expect("\n    forcestring: "@, tail3);
    if p.forcestring {
        reveal_strlit("true");
        assert(tail3 =~= "true"@ + tail4);
        assert(starts_with(tail3, "true"@)) by {
            assert(tail3.take("true"@.len() as int) =~= "true"@);
        }
        assert(tail3.skip("true"@.len() as int) =~= tail4);
    } else {
        assert(tail3 =~= "false"@ + tail4);
        assert(!starts_with(tail3, "true"@)) by {
            assert(tail3[0] == 'f');
            assert("true"@[0] == 't');
            if starts_with(tail3, "true"@) {
                assert(tail3.take("true"@.len() as int)[0] == tail3[0]);
            }
        }
        assert(starts_with(tail3, "false"@)) by {
            assert(tail3.take("false"@.len() as int) =~= "false"@);
        }
        assert(tail3.skip("false"@.len() as int) =~= tail4);
    }
    lemma_expect("\n"@, rest);
    assert(tail4 =~= "\n"@ + rest);
}

proof fn lemma_parse_params(ps: Seq<ParameterView>)
    ensures
        parse_params(params_text(ps)) == Some(ps),
    decreases ps.len(),
{
    if ps.len() == 0 {
        assert(params_text(ps).len() == 0);
        assert(ps =~= Seq::<ParameterView>::empty());
    } else {
        let d = ps.drop_first();
        lemma_parse_params(d);
        lemma_parse_param(ps[0], params_text(d));
        let s = params_text(ps);
        assert(s == param_text(ps[0]) + params_text(d));
        assert(s.len() == param_text(ps[0]).len() + params_text(d).len());
        assert(s.len() > 0);
        assert(parse_param(s) == Some((ps[0], params_text(d))));
        assert(seq![ps[0]] + d =~= ps);
    }
}

/// Writing a document and reading the text back yields exactly the parameter
/// sequence that was written: the emitted text determines the document.
pub proof fn lemma_write_read_roundtrip(ps: Seq<ParameterView>)
    ensures
        parse_overrides(overrides_text(ps)) == Some(ps),
{
    reveal_strlit("helm:\n  parameters: []\n");
    reveal_strlit("helm:\n  parameters:\n");
    if ps.len() == 0 {
        assert(overrides_text(ps) == "helm:\n  parameters: []\n"@);
        assert(ps =~= Seq::<ParameterView>::empty());
    } else {
        let body = params_text(ps);
        let s = "helm:\n  parameters:\n"@ + body;
        lemma_parse_param(ps[0], params_text(ps.drop_first()));
        assert(body.len() > 0);
        assert(s != "helm:\n  parameters: []\n"@) by {
            reveal_strlit("  - name: ");
            assert("helm:\n  parameters: []\n"@.len() == 23);
            assert("helm:\n  parameters:\n"@.len() == 20);
            assert(s["helm:\n  parameters:\n"@.len() as int] == body[0]);
            assert(body[0] == param_text(ps[0])[0]);
            assert(param_text(ps[0])[0] == ' ');
            assert("helm:\n  parameters: []\n"@[20] == '[');
        }
        lemma_expect("helm:\n  parameters:\n"@, body);
        lemma_parse_params(ps);
    }
}

proof fn lemma_sq_escape_snoc(s: Seq<char>, k: int)
    requires
        0 <= k < s.len(),
    ensures
        sq_escape(s.take(k + 1)) == sq_escape(s.take(k)) + (if s[k] == '\'' {
            seq!['\'', '\'']
        } else {
            seq![s[k]]
        }),
    decreases k,
{
    if k == 0 {
        assert(s.take(1).drop_first() =~= Seq::<char>::empty());
        assert(s.take(1)[0] == s[0]);
        assert(s.take(0) =~= Seq::<char>::empty());
        assert(sq_escape(s.take(1)) =~= (if s[0] == '\'' {
            seq!['\'', '\'']
        } else {
            seq![s[0]]
        }));
    } else {
        let d = s.drop_first();
        lemma_sq_escape_snoc(d, k - 1);
        assert(s.take(k + 1).drop_first() =~= d.take(k));
        assert(s.take(k).drop_first() =~= d.take(k - 1));
        assert(s.take(k + 1)[0] == s[0]);
        assert(s.take(k)[0] == s[0]);
        assert(d[k - 1] == s[k]);
        assert(sq_escape(s.take(k + 1)) =~= sq_escape(s.take(k)) + (if s[k] == '\'' {
            seq!['\'', '\'']
        } else {
            seq![s[k]]
        }));
    }
}

fn push_quoted(out: &mut Vec<char>, s: &Vec<char>)
    ensures
        final(out)@ == old(out)@ + quoted(s@),
{
    out.push('\'');
    let mut k: usize = 0;
    proof {
        assert(s@.take(0) =~= Seq::<char>::empty());
        assert(out@ =~= old(out)@ + seq!['\''] + sq_escape(s@.take(0)));
    }
    while k < s.len()
        invariant
            0 <= k <= s@.len(),
            out@ == old(out)@ + seq!['\''] + sq_escape(s@.take(k as int)),
        decreases s@.len() - k,
    {
        proof {
            lemma_sq_escape_snoc(s@, k as int);
        }
        let c = s[k];
        if c == '\'' {
            out.push('\'');
            out.push('\'');
        } else {
            out.push(c);
        }
        proof {
            assert(out@ =~= old(out)@ + seq!['\''] + sq_escape(s@.take(k + 1)));
        }
        k += 1;
    }
    out.push('\'');
    proof {
        assert(s@.take(s@.len() as int) =~= s@);
        assert(out@ =~= old(out)@ + quoted(s@));
    }
}

proof fn lemma_params_text_snoc(ps: Seq<ParameterView>, k: int)
    requires
        0 <= k < ps.len(),
    ensures
        params_text(ps.take(k + 1)) == params_text(ps.take(k)) + param_text(ps[k]),
    decreases k,
{
    if k == 0 {
        assert(ps.take(1).drop_first() =~= Seq::<ParameterView>::empty());
        assert(ps.take(1)[0] == ps[0]);
        assert(ps.take(0) =~= Seq::<ParameterView>::empty());
        assert(params_text(ps.take(1).drop_first()) =~= Seq::<char>::empty());
        assert(param_text(ps[0]) + Seq::<char>::empty() =~= param_text(ps[0]));
        assert(params_text(ps.take(1)) =~= param_text(ps[0]));
    } else {
        let d = ps.drop_first();
        lemma_params_text_snoc(d, k - 1);
        assert(ps.take(k + 1).drop_first() =~= d.take(k));
        assert(ps.take(k).drop_first() =~= d.take(k - 1));
        assert(ps.take(k + 1)[0] == ps[0]);
        assert(ps.take(k)[0] == ps[0]);
        assert(d[k - 1] == ps[k]);
        assert(params_text(ps.take(k + 1)) =~= params_text(ps.take(k)) + param_text(ps[k]));
    }
}

impl Overrides {
    /// The exact text written back to the override file.
    pub fn to_yaml(&self) -> (r: String)
        ensures
            r@ == overrides_text(self@),
    {
        let ghost psm = self@;
        let n = self.helm.parameters.0.len();
        if n == 0 {
            let v = chars_of("helm:\n  parameters: []\n");
            return string_of(&v);
        }
        let mut out: Vec<char> = Vec::new();
        let header = chars_of("helm:\n  parameters:\n");
        extend_chars(&mut out, &header);
        proof {
            assert(psm.take(0) =~= Seq::<ParameterView>::empty());
            assert(out@ =~= "helm:\n  parameters:\n"@ + params_text(psm.take(0)));
        }
        let name_lead = chars_of("  - name: ");
        let value_lead = chars_of("\n    value: ");
        let force_lead = chars_of("\n    forcestring: ");
        let true_text = chars_of("true");
        let false_text = chars_of("false");
        let newline = chars_of("\n");
        let mut k: usize = 0;
        while k < n
            invariant
                0 <= k <= n,
                n == self.helm.parameters.0@.len(),
                self@ == psm,
                name_lead@ == "  - name: "@,
                value_lead@ == "\n    value: "@,
                force_lead@ == "\n    forcestring: "@,
                true_text@ == "true"@,
                false_text@ == "false"@,
                newline@ == "\n"@,
                out@ == "helm:\n  parameters:\n"@ + params_text(psm.take(k as int)),
            decreases n - k,
        {
            proof {
                lemma_params_text_snoc(psm, k as int);
            }
            let ghost before = out@;
            let p = &self.helm.parameters.0[k];
            proof {
                assert(p@ == psm[k as int]);
            }
            let pname = chars_of(p.name.as_str());
            let pvalue = chars_of(p.value.as_str());
            extend_chars(&mut out, &name_lead);
            push_quoted(&mut out, &pname);
            extend_chars(&mut out, &value_lead);
            push_quoted(&mut out, &pvalue);
            extend_chars(&mut out, &force_lead);
            if p.forcestring {
                extend_chars(&mut out, &true_text);
            } else {
                extend_chars(&mut out, &false_text);
            }
            extend_chars(&mut out, &newline);
            proof {
                assert(out@ =~= before + param_text(psm[k as int]));
                assert(out@ =~= "helm:\n  parameters:\n"@ + params_text(psm.take(k + 1)));
            }
            k += 1;
        }
        proof {
            assert(psm.take(psm.len() as int) =~= psm);
        }
        string_of(&out)
    }
}

} // verus!
