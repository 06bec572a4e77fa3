use vstd::prelude::*;

use crate::chars::{
    chars_of, split_on, split_on_char, split_once_at, split_once_chars, string_of,
    strip_prefix_all, strip_prefix_all_chars, strip_suffix_all, strip_suffix_all_chars,
    trim_chars, trim_spaces,
};
use crate::yamlmodel::{
    lookup_str, model_lookup, parse_yaml_value, split_yaml_documents, yaml_as_str, yaml_doc_split,
    yaml_get, yaml_model, yaml_parse, YamlModel,
};

verus! {

// ---------------------------------------------------------------------------
// Candidates: one declared (application, image) pair eligible for tag
// resolution, discovered from an application declaration's annotations.
// ---------------------------------------------------------------------------

#[derive(Clone, Debug)]
pub struct Candidate {
    pub app_name: String,
    pub url: String,
    pub allow_tags: String,
    pub helm_image_tag: String,
    pub path: String,
}

pub struct CandidateView {
    pub app_name: Seq<char>,
    pub url: Seq<char>,
    pub allow_tags: Seq<char>,
    pub helm_image_tag: Seq<char>,
    pub path: Seq<char>,
}

impl View for Candidate {
    type V = CandidateView;

    open spec fn view(&self) -> CandidateView {
        CandidateView {
            app_name: self.app_name@,
            url: self.url@,
            allow_tags: self.allow_tags@,
            helm_image_tag: self.helm_image_tag@,
            path: self.path@,
        }
    }
}

impl DeepView for Candidate {
    type V = CandidateView;

    open spec fn deep_view(&self) -> CandidateView {
        self.view()
    }
}

// ---------------------------------------------------------------------------
// What an application declaration must hold, and what one image entry yields.
// ---------------------------------------------------------------------------

pub open spec fn is_argo_app_model(m: YamlModel) -> bool {
    &&& lookup_str(m, "kind"@) == Some("Application"@)
    &&& lookup_str(m, "apiVersion"@) == Some("argoproj.io/v1alpha1"@)
}

pub open spec fn annotations_of(m: YamlModel) -> Option<YamlModel> {
    match model_lookup(m, "metadata"@) {
        Some(meta) => model_lookup(meta, "annotations"@),
        None => None,
    }
}

pub open spec fn image_list_of(m: YamlModel) -> Option<Seq<char>> {
    match annotations_of(m) {
        Some(ann) => lookup_str(ann, "argocd-image-updater.argoproj.io/image-list"@),
        None => None,
    }
}

pub open spec fn source_path_of(m: YamlModel) -> Option<Seq<char>> {
    match model_lookup(m, "spec"@) {
        Some(sp) => match model_lookup(sp, "source"@) {
            Some(src) => lookup_str(src, "path"@),
            None => None,
        },
        None => None,
    }
}

pub open spec fn app_name_of(m: YamlModel) -> Option<Seq<char>> {
    match model_lookup(m, "metadata"@) {
        Some(meta) => lookup_str(meta, "name"@),
        None => None,
    }
}

pub open spec fn allow_key(name: Seq<char>) -> Seq<char> {
    "argocd-image-updater.argoproj.io/"@ + name + ".allow-tags"@
}

pub open spec fn tag_key(name: Seq<char>) -> Seq<char> {
    "argocd-image-updater.argoproj.io/"@ + name + ".helm.image-tag"@
}

/// One entry of the comma-separated image list: trimmed, split at the first
/// `=` into image name and registry reference; a candidate comes out exactly
/// when both per-image annotations are present as strings.
pub open spec fn image_candidate(
    ann: YamlModel,
    app_name: Seq<char>,
    path: Seq<char>,
    seg: Seq<char>,
) -> Option<CandidateView> {
    match split_once_at(trim_spaces(seg), '=') {
        None => None,
        Some(nu) => match (lookup_str(ann, allow_key(nu.0)), lookup_str(ann, tag_key(nu.0))) {
            (Some(allow), Some(tag)) => Some(
                CandidateView {
                    app_name: app_name,
                    url: nu.1,
                    allow_tags: allow,
                    helm_image_tag: tag,
                    path: path,
                },
            ),
            _ => None,
        },
    }
}

pub open spec fn opt_cand_seq(o: Option<CandidateView>) -> Seq<CandidateView> {
    match o {
        Some(c) => seq![c],
        None => Seq::empty(),
    }
}

pub open spec fn candidates_from_segments(
    ann: YamlModel,
    app_name: Seq<char>,
    path: Seq<char>,
    segs: Seq<Seq<char>>,
) -> Seq<CandidateView>
    decreases segs.len(),
{
    if segs.len() == 0 {
        Seq::empty()
    } else {
        opt_cand_seq(image_candidate(ann, app_name, path, segs[0])) + candidates_from_segments(
            ann,
            app_name,
            path,
            segs.drop_first(),
        )
    }
}

/// All candidates of one parsed document.
pub open spec fn doc_candidates(m: YamlModel) -> Seq<CandidateView> {
    if !is_argo_app_model(m) {
        Seq::empty()
    } else {
        match (annotations_of(m), image_list_of(m), source_path_of(m), app_name_of(m)) {
            (Some(ann), Some(images), Some(path), Some(app)) => candidates_from_segments(
                ann,
                app,
                path,
                split_on(images, ','),
            ),
            _ => Seq::empty(),
        }
    }
}

pub open spec fn docs_candidates(docs: Seq<Seq<char>>) -> Seq<CandidateView>
    decreases docs.len(),
{
    if docs.len() == 0 {
        Seq::empty()
    } else {
        (match yaml_parse(docs[0]) {
            Some(m) => doc_candidates(m),
            None => Seq::empty(),
        }) + docs_candidates(docs.drop_first())
    }
}

/// All candidates of one file's text: document markers around the text are
/// stripped, the text is split into its documents, and each document that
/// parses contributes its candidates, in order.
pub open spec fn text_candidates(text: Seq<char>) -> Seq<CandidateView> {
    let body = strip_suffix_all(strip_prefix_all(trim_spaces(text), "---"@), "---"@);
    docs_candidates(yaml_doc_split(body))
}

/// The file names the candidate extractor visits.
pub open spec fn is_yaml_name(name: Seq<char>) -> bool {
    crate::chars::ends_with(name, ".yaml"@) || crate::chars::ends_with(name, ".yml"@)
}

// ---------------------------------------------------------------------------
// Executable extraction.
// ---------------------------------------------------------------------------

pub fn string_is(s: &String, lit: &str) -> (r: bool)
    ensures
        r == (s@ == lit@),
{
    let l: String = lit.to_owned();
    *s == l
}

pub fn is_yaml_file_name(name: &String) -> (r: bool)
    ensures
        r == is_yaml_name(name@),
{
    let n = chars_of(name.as_str());
    let yaml = chars_of(".yaml");
    let yml = chars_of(".yml");
    let a = crate::chars::has_suffix(&n, &yaml);
    let b = crate::chars::has_suffix(&n, &yml);
    a || b
}

/// A document is an application declaration exactly when its top-level `kind`
/// is `Application` and its `apiVersion` is `argoproj.io/v1alpha1`.
pub fn is_argo_app(doc: &serde_yaml::Value) -> (r: bool)
    ensures
        r == is_argo_app_model(yaml_model(*doc)),
{
    let kind_ok = match yaml_get(doc, "kind") {
        Some(v) => match yaml_as_str(v) {
            Some(s) => string_is(&s, "Application"),
            None => false,
        },
        None => false,
    };
    let api_ok = match yaml_get(doc, "apiVersion") {
        Some(v) => match yaml_as_str(v) {
            Some(s) => string_is(&s, "argoproj.io/v1alpha1"),
            None => false,
        },
        None => false,
    };
    kind_ok && api_ok
}

proof fn lemma_cfs_snoc(
    ann: YamlModel,
    app: Seq<char>,
    path: Seq<char>,
    segs: Seq<Seq<char>>,
    k: int,
)
    requires
        0 <= k < segs.len(),
    ensures
        candidates_from_segments(ann, app, path, segs.take(k + 1)) == candidates_from_segments(
            ann,
            app,
            path,
            segs.take(k),
        ) + opt_cand_seq(image_candidate(ann, app, path, segs[k])),
    decreases k,
{
    if k == 0 {
        assert(segs.take(1).drop_first() =~= Seq::<Seq<char>>::empty());
        assert(segs.take(1)[0] == segs[0]);
        assert(segs.take(0) =~= Seq::<Seq<char>>::empty());
        assert(candidates_from_segments(ann, app, path, segs.take(1).drop_first()) =~= Seq::<
            CandidateView,
        >::empty());
        assert(opt_cand_seq(image_candidate(ann, app, path, segs[0])) + Seq::<
            CandidateView,
        >::empty() =~= opt_cand_seq(image_candidate(ann, app, path, segs[0])));
        assert(candidates_from_segments(ann, app, path, segs.take(1)) =~= opt_cand_seq(
            image_candidate(ann, app, path, segs[0]),
        ));
        assert(candidates_from_segments(ann, app, path, segs.take(0)) =~= Seq::<
            CandidateView,
        >::empty());
    } else {
        let d = segs.drop_first();
        lemma_cfs_snoc(ann, app, path, d, k - 1);
        assert(segs.take(k + 1).drop_first() =~= d.take(k));
        assert(segs.take(k).drop_first() =~= d.take(k - 1));
        assert(segs.take(k + 1)[0] == segs[0]);
        assert(segs.take(k)[0] == segs[0]);
        assert(d[k - 1] == segs[k]);
        assert(candidates_from_segments(ann, app, path, segs.take(k + 1))
            =~= candidates_from_segments(ann, app, path, segs.take(k)) + opt_cand_seq(
            image_candidate(ann, app, path, segs[k]),
        ));
    }
}

/// All candidates declared by one parsed document, in image-list order.
pub fn candidates_from_document(doc: &serde_yaml::Value) -> (r: Vec<Candidate>)
    ensures
        r.deep_view() == doc_candidates(yaml_model(*doc)),
{
    let ghost dm = yaml_model(*doc);
    let mut out: Vec<Candidate> = Vec::new();
    proof {
        assert(out.deep_view() =~= Seq::<CandidateView>::empty());
    }
    if !is_argo_app(doc) {
        return out;
    }
    let meta = match yaml_get(doc, "metadata") {
        Some(m) => m,
        None => {
            return out;
        },
    };
    let ann = match yaml_get(meta, "annotations") {
        Some(a) => a,
        None => {
            return out;
        },
    };
    let images: String = match yaml_get(ann, "argocd-image-updater.argoproj.io/image-list") {
        Some(v) => match yaml_as_str(v) {
            Some(s) => s,
            None => {
                return out;
            },
        },
        None => {
            return out;
        },
    };
    let spec_v = match yaml_get(doc, "spec") {
        Some(v) => v,
        None => {
            return out;
        },
    };
    let source_v = match yaml_get(spec_v, "source") {
        Some(v) => v,
        None => {
            return out;
        },
    };
    let path: String = match yaml_get(source_v, "path") {
        Some(v) => match yaml_as_str(v) {
            Some(s) => s,
            None => {
                return out;
            },
        },
        None => {
            return out;
        },
    };
    let app_name: String = match yaml_get(meta, "name") {
        Some(v) => match yaml_as_str(v) {
            Some(s) => s,
            None => {
                return out;
            },
        },
        None => {
            return out;
        },
    };
    let ghost annm = annotations_of(dm)->Some_0;

    let image_chars = chars_of(images.as_str());
    let segs = split_on_char(&image_chars, ',');
    let ghost segsm = split_on(images@, ',');
    proof {
        assert(doc_candidates(dm) == candidates_from_segments(annm, app_name@, path@, segsm));
    }
    let mut k: usize = 0;
    proof {
        assert(segsm.take(0) =~= Seq::<Seq<char>>::empty());
    }
    while k < segs.len()
        invariant
            0 <= k <= segs@.len(),
            segs.deep_view() == segsm,
            out.deep_view() == candidates_from_segments(annm, app_name@, path@, segsm.take(k as int)),
            yaml_model(*ann) == annm,
        decreases segs@.len() - k,
    {
        let ghost segm = segsm[k as int];
        proof {
            assert(segs.deep_view()[k as int] == segs@[k as int]@);
            lemma_cfs_snoc(annm, app_name@, path@, segsm, k as int);
        }
        let trimmed = trim_chars(&segs[k]);
        match split_once_chars(&trimmed, '=') {
            None => {
                proof {
                    assert(out.deep_view() + Seq::<CandidateView>::empty() =~= out.deep_view());
                }
            },
            Some(nu) => {
                let (name, url) = nu;
                let prefix = chars_of("argocd-image-updater.argoproj.io/");
                let asuf = chars_of(".allow-tags");
                let tsuf = chars_of(".helm.image-tag");
                let akey = crate::chars::concat3(&prefix, &name, &asuf);
                let tkey = crate::chars::concat3(&prefix, &name, &tsuf);
                let akey_s = string_of(&akey);
                let tkey_s = string_of(&tkey);
                let allow: Option<String> = match yaml_get(ann, akey_s.as_str()) {
                    Some(v) => yaml_as_str(v),
                    None => None,
                };
                let tag: Option<String> = match yaml_get(ann, tkey_s.as_str()) {
                    Some(v) => yaml_as_str(v),
                    None => None,
                };
                match (allow, tag) {
                    (Some(allow_s), Some(tag_s)) => {
                        let ghost before = out.deep_view();
                        let cand = Candidate {
                            app_name: app_name.clone(),
                            url: string_of(&url),
                            allow_tags: allow_s,
                            helm_image_tag: tag_s,
                            path: path.clone(),
                        };
                        proof {
                            assert(cand@ == image_candidate(annm, app_name@, path@, segm)->Some_0);
                        }
                        out.push(cand);
                        proof {
                            assert(out.deep_view() =~= before.push(cand@));
                            assert(before.push(cand@) =~= before + opt_cand_seq(
                                image_candidate(annm, app_name@, path@, segm),
                            ));
                        }
                    },
                    _ => {
                        proof {
                            assert(image_candidate(annm, app_name@, path@, segm) is None);
                            assert(out.deep_view() + Seq::<CandidateView>::empty()
                                =~= out.deep_view());
                        }
                    },
                }
            },
        }
        k += 1;
    }
    proof {
        assert(segsm.take(segsm.len() as int) =~= segsm);
    }
    out
}

proof fn lemma_docs_snoc(docs: Seq<Seq<char>>, k: int)
    requires
        0 <= k < docs.len(),
    ensures
        docs_candidates(docs.take(k + 1)) == docs_candidates(docs.take(k)) + (match yaml_parse(
            docs[k],
        ) {
            Some(m) => doc_candidates(m),
            None => Seq::<CandidateView>::empty(),
        }),
    decreases k,
{
    if k == 0 {
        assert(docs.take(1).drop_first() =~= Seq::<Seq<char>>::empty());
        assert(docs.take(1)[0] == docs[0]);
        assert(docs.take(0) =~= Seq::<Seq<char>>::empty());
        assert(docs_candidates(docs.take(1).drop_first()) =~= Seq::<CandidateView>::empty());
        assert((match yaml_parse(docs[0]) {
            Some(m) => doc_candidates(m),
            None => Seq::<CandidateView>::empty(),
        }) + Seq::<CandidateView>::empty() =~= (match yaml_parse(docs[0]) {
            Some(m) => doc_candidates(m),
            None => Seq::<CandidateView>::empty(),
        }));
        assert(docs_candidates(docs.take(1)) =~= (match yaml_parse(docs[0]) {
            Some(m) => doc_candidates(m),
            None => Seq::<CandidateView>::empty(),
        }));
    } else {
        let d = docs.drop_first();
        lemma_docs_snoc(d, k - 1);
        assert(docs.take(k + 1).drop_first() =~= d.take(k));
        assert(docs.take(k).drop_first() =~= d.take(k - 1));
        assert(docs.take(k + 1)[0] == docs[0]);
        assert(docs.take(k)[0] == docs[0]);
        assert(d[k - 1] == docs[k]);
        assert(docs_candidates(docs.take(k + 1)) =~= docs_candidates(docs.take(k)) + (
        match yaml_parse(docs[k]) {
            Some(m) => doc_candidates(m),
            None => Seq::<CandidateView>::empty(),
        }));
    }
}

/// An image entry lacking its `allow-tags` or its `helm.image-tag`
/// annotation yields no candidate.
pub proof fn lemma_missing_annotation_no_candidate(
    ann: YamlModel,
    app: Seq<char>,
    path: Seq<char>,
    seg: Seq<char>,
)
    requires
        split_once_at(trim_spaces(seg), '=') matches Some(nu) && (lookup_str(
            ann,
            allow_key(nu.0),
        ) is None || lookup_str(ann, tag_key(nu.0)) is None),
    ensures
        image_candidate(ann, app, path, seg) is None,
{
}

/// Each image entry of one image list contributes its candidate (or nothing)
/// independently of its siblings: the document's candidates decompose around
/// any one entry, so dropping one entry's contribution leaves the others
/// exactly as they were.
pub proof fn lemma_images_independent(
    ann: YamlModel,
    app: Seq<char>,
    path: Seq<char>,
    segs: Seq<Seq<char>>,
    k: int,
)
    requires
        0 <= k < segs.len(),
    ensures
        candidates_from_segments(ann, app, path, segs) == candidates_from_segments(
            ann,
            app,
            path,
            segs.take(k),
        ) + opt_cand_seq(image_candidate(ann, app, path, segs[k])) + candidates_from_segments(
            ann,
            app,
            path,
            segs.skip(k + 1),
        ),
    decreases k,
{
    if k == 0 {
        assert(segs.take(0) =~= Seq::<Seq<char>>::empty());
        assert(segs.skip(1) =~= segs.drop_first());
        assert(candidates_from_segments(ann, app, path, segs.take(0)) =~= Seq::<
            CandidateView,
        >::empty());
        assert(candidates_from_segments(ann, app, path, segs) =~= candidates_from_segments(
            ann,
            app,
            path,
            segs.take(0),
        ) + opt_cand_seq(image_candidate(ann, app, path, segs[0])) + candidates_from_segments(
            ann,
            app,
            path,
            segs.skip(1),
        ));
    } else {
        let d = segs.drop_first();
        lemma_images_independent(ann, app, path, d, k - 1);
        assert(segs.take(k).drop_first() =~= d.take(k - 1));
        assert(segs.take(k)[0] == segs[0]);
        assert(d.skip(k) =~= segs.skip(k + 1));
        assert(d[k - 1] == segs[k]);
        assert(candidates_from_segments(ann, app, path, segs) =~= candidates_from_segments(
            ann,
            app,
            path,
            segs.take(k),
        ) + opt_cand_seq(image_candidate(ann, app, path, segs[k])) + candidates_from_segments(
            ann,
            app,
            path,
            segs.skip(k + 1),
        ));
    }
}

/// All candidates declared in one file's text. Documents that do not parse
/// are skipped; documents that are not application declarations, or that lack
/// a required field, contribute nothing.
pub fn candidates_from_text(text: &String) -> (r: Vec<Candidate>)
    ensures
        r.deep_view() == text_candidates(text@),
{
    let tc = chars_of(text.as_str());
    let trimmed = trim_chars(&tc);
    let dashes = chars_of("---");
    let a = strip_prefix_all_chars(&trimmed, &dashes);
    let b = strip_suffix_all_chars(&a, &dashes);
    let body = string_of(&b);
    let docs = split_yaml_documents(body.as_str());
    let ghost docsm = yaml_doc_split(b@);

    let mut out: Vec<Candidate> = Vec::new();
    let mut k: usize = 0;
    proof {
        assert(docsm.take(0) =~= Seq::<Seq<char>>::empty());
        assert(out.deep_view() =~= Seq::<CandidateView>::empty());
    }
    while k < docs.len()
        invariant
            0 <= k <= docs@.len(),
            docs.deep_view() == docsm,
            out.deep_view() == docs_candidates(docsm.take(k as int)),
        decreases docs@.len() - k,
    {
        proof {
            assert(docs.deep_view()[k as int] == docs@[k as int]@);
            lemma_docs_snoc(docsm, k as int);
        }
        let mut part: Vec<Candidate> = match parse_yaml_value(docs[k].as_str()) {
            Some(v) => candidates_from_document(&v),
            None => Vec::new(),
        };
        let ghost before = out.deep_view();
        let ghost partm = part.deep_view();
        out.append(&mut part);
        proof {
            assert(out.deep_view() =~= before + partm);
        }
        k += 1;
    }
    proof {
        assert(docsm.take(docsm.len() as int) =~= docsm);
    }
    out
}

} // verus!
