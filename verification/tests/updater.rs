use image_updater::manifest::{candidates_from_text, is_yaml_file_name};
use image_updater::needs_commit;
use image_updater::overrides::{
    override_file_name, override_relative_path, HelmOverride, Overrides, Parameter,
    ParametersOverride,
};
use image_updater::tags::{resolve_latest_tag, ResolveError};
use image_updater::trigger_action;
use image_updater::CandidateOutcome;
use image_updater::TriggerAction;

fn strings(v: &[&str]) -> Vec<String> {
    v.iter().map(|s| s.to_string()).collect()
}

fn overrides_of(params: Vec<Parameter>) -> Overrides {
    Overrides {
        helm: HelmOverride {
            parameters: ParametersOverride(params),
        },
    }
}

fn param(name: &str, value: &str, forcestring: bool) -> Parameter {
    Parameter {
        name: name.to_string(),
        value: value.to_string(),
        forcestring,
    }
}

const MANIFEST: &str = "apiVersion: argoproj.io/v1alpha1
kind: Application
metadata:
  name: myapp
  annotations:
    argocd-image-updater.argoproj.io/image-list: api=registry.example/org/api
    argocd-image-updater.argoproj.io/api.allow-tags: 'regexp:^v\\d+$'
    argocd-image-updater.argoproj.io/api.helm.image-tag: image.tag
spec:
  source:
    path: apps/api
";

#[test]
fn numeric_aware_ordering_picks_v1_10() {
    let tags = strings(&["v1.2", "v1.10", "v1.9"]);
    let r = resolve_latest_tag(&".*".to_string(), &tags).unwrap();
    assert_eq!(r, "v1.10");
}

#[test]
fn resolution_is_order_independent() {
    let a = strings(&["v1.2", "v1.10", "v1.9"]);
    let b = strings(&["v1.9", "v1.2", "v1.10"]);
    let c = strings(&["v1.10", "v1.9", "v1.2"]);
    let pattern = "regexp:^v.*$".to_string();
    let ra = resolve_latest_tag(&pattern, &a).unwrap();
    let rb = resolve_latest_tag(&pattern, &b).unwrap();
    let rc = resolve_latest_tag(&pattern, &c).unwrap();
    assert_eq!(ra, "v1.10");
    assert_eq!(rb, "v1.10");
    assert_eq!(rc, "v1.10");
}

#[test]
fn invalid_pattern_is_reported() {
    let tags = strings(&["v1"]);
    let r = resolve_latest_tag(&"regexp:(".to_string(), &tags);
    assert!(matches!(r, Err(ResolveError::InvalidPattern)));
}

#[test]
fn no_matching_tag_is_reported() {
    let tags = strings(&["latest", "stable"]);
    let r = resolve_latest_tag(&"^v\\d+$".to_string(), &tags);
    assert!(matches!(r, Err(ResolveError::NoMatchingTag)));
}

#[test]
fn regexp_prefix_is_stripped() {
    let tags = strings(&["v1", "v2", "latest"]);
    let r = resolve_latest_tag(&"regexp:^v\\d+$".to_string(), &tags).unwrap();
    assert_eq!(r, "v2");
}

#[test]
fn repeated_regexp_prefixes_are_all_stripped() {
    let tags = strings(&["v1", "v7", "latest"]);
    let r = resolve_latest_tag(&"regexp:regexp:^v\\d+$".to_string(), &tags).unwrap();
    assert_eq!(r, "v7");
}

#[test]
fn scenario_full_pipeline() {
    let candidates = candidates_from_text(&MANIFEST.to_string());
    assert_eq!(candidates.len(), 1);
    let c = &candidates[0];
    assert_eq!(c.app_name, "myapp");
    assert_eq!(c.url, "registry.example/org/api");
    assert_eq!(c.allow_tags, "regexp:^v\\d+$");
    assert_eq!(c.helm_image_tag, "image.tag");
    assert_eq!(c.path, "apps/api");

    let tags = strings(&["v1", "v2", "latest"]);
    let resolved = resolve_latest_tag(&c.allow_tags, &tags).unwrap();
    assert_eq!(resolved, "v2");

    let rel = override_relative_path(&c.path, &c.app_name);
    assert_eq!(rel, "apps/api/.argocd-source-myapp.yaml");

    let mut doc = overrides_of(vec![param("image.tag", "v1", false)]);
    let changed = doc.apply(&c.helm_image_tag, &resolved);
    assert!(changed);
    assert_eq!(doc.parameters()[0].value, "v2");
}

#[test]
fn non_application_documents_are_ignored() {
    let text = "apiVersion: v1
kind: ConfigMap
metadata:
  name: not-an-app
";
    let candidates = candidates_from_text(&text.to_string());
    assert_eq!(candidates.len(), 0);
}

#[test]
fn missing_allow_tags_skips_image_but_not_siblings() {
    let text = "apiVersion: argoproj.io/v1alpha1
kind: Application
metadata:
  name: myapp
  annotations:
    argocd-image-updater.argoproj.io/image-list: 'api=reg/a, web=reg/b'
    argocd-image-updater.argoproj.io/web.allow-tags: 'regexp:^v\\d+$'
    argocd-image-updater.argoproj.io/web.helm.image-tag: web.tag
spec:
  source:
    path: apps/api
";
    let candidates = candidates_from_text(&text.to_string());
    assert_eq!(candidates.len(), 1);
    assert_eq!(candidates[0].url, "reg/b");
    assert_eq!(candidates[0].helm_image_tag, "web.tag");
}

#[test]
fn missing_helm_image_tag_skips_image() {
    let text = "apiVersion: argoproj.io/v1alpha1
kind: Application
metadata:
  name: myapp
  annotations:
    argocd-image-updater.argoproj.io/image-list: api=reg/a
    argocd-image-updater.argoproj.io/api.allow-tags: '.*'
spec:
  source:
    path: apps/api
";
    let candidates = candidates_from_text(&text.to_string());
    assert_eq!(candidates.len(), 0);
}

#[test]
fn malformed_image_entries_are_skipped() {
    let text = "apiVersion: argoproj.io/v1alpha1
kind: Application
metadata:
  name: myapp
  annotations:
    argocd-image-updater.argoproj.io/image-list: 'noequalsign, api=reg/a'
    argocd-image-updater.argoproj.io/api.allow-tags: '.*'
    argocd-image-updater.argoproj.io/api.helm.image-tag: image.tag
spec:
  source:
    path: apps/api
";
    let candidates = candidates_from_text(&text.to_string());
    assert_eq!(candidates.len(), 1);
    assert_eq!(candidates[0].url, "reg/a");
}

#[test]
fn multi_document_files_yield_all_candidates() {
    let one = "apiVersion: argoproj.io/v1alpha1
kind: Application
metadata:
  name: alpha
  annotations:
    argocd-image-updater.argoproj.io/image-list: a=reg/a
    argocd-image-updater.argoproj.io/a.allow-tags: '.*'
    argocd-image-updater.argoproj.io/a.helm.image-tag: a.tag
spec:
  source:
    path: apps/alpha
";
    let two = "apiVersion: argoproj.io/v1alpha1
kind: Application
metadata:
  name: beta
  annotations:
    argocd-image-updater.argoproj.io/image-list: b=reg/b
    argocd-image-updater.argoproj.io/b.allow-tags: '.*'
    argocd-image-updater.argoproj.io/b.helm.image-tag: b.tag
spec:
  source:
    path: apps/beta
";
    let text = format!("{}---\n{}", one, two);
    let candidates = candidates_from_text(&text);
    assert_eq!(candidates.len(), 2);
    assert_eq!(candidates[0].app_name, "alpha");
    assert_eq!(candidates[1].app_name, "beta");
}

#[test]
fn apply_is_idempotent() {
    let mut doc = overrides_of(vec![param("image.tag", "v1", false)]);
    let first = doc.apply(&"image.tag".to_string(), &"v2".to_string());
    assert!(first);
    let before = doc.to_yaml();
    let second = doc.apply(&"image.tag".to_string(), &"v2".to_string());
    assert!(!second);
    assert_eq!(doc.to_yaml(), before);
}

#[test]
fn apply_updates_every_matching_entry() {
    let mut doc = overrides_of(vec![
        param("image.tag", "v1", false),
        param("other.tag", "v9", true),
        param("image.tag", "v3", false),
    ]);
    let changed = doc.apply(&"image.tag".to_string(), &"v2".to_string());
    assert!(changed);
    let ps = doc.parameters();
    assert_eq!(ps[0].value, "v2");
    assert_eq!(ps[1].value, "v9");
    assert_eq!(ps[2].value, "v2");
}

#[test]
fn apply_never_inserts_a_parameter() {
    let mut doc = overrides_of(vec![param("other.tag", "v1", false)]);
    let changed = doc.apply(&"image.tag".to_string(), &"v2".to_string());
    assert!(!changed);
    assert_eq!(doc.parameters().len(), 1);
    assert_eq!(doc.parameters()[0].value, "v1");
}

#[test]
fn written_document_reads_back_equal() {
    let doc = overrides_of(vec![
        param("image.tag", "v2", false),
        param("it's.quoted", "v'1", true),
    ]);
    let text = doc.to_yaml();
    let value: serde_yaml::Value = serde_yaml::from_str(&text).unwrap();
    let params = value
        .get("helm")
        .unwrap()
        .get("parameters")
        .unwrap()
        .as_sequence()
        .unwrap();
    assert_eq!(params.len(), 2);
    assert_eq!(params[0].get("name").unwrap().as_str().unwrap(), "image.tag");
    assert_eq!(params[0].get("value").unwrap().as_str().unwrap(), "v2");
    assert_eq!(params[0].get("forcestring").unwrap().as_bool().unwrap(), false);
    assert_eq!(
        params[1].get("name").unwrap().as_str().unwrap(),
        "it's.quoted"
    );
    assert_eq!(params[1].get("value").unwrap().as_str().unwrap(), "v'1");
    assert_eq!(params[1].get("forcestring").unwrap().as_bool().unwrap(), true);
}

#[test]
fn empty_document_serializes_as_empty_list() {
    let doc = overrides_of(vec![]);
    let text = doc.to_yaml();
    let value: serde_yaml::Value = serde_yaml::from_str(&text).unwrap();
    let params = value
        .get("helm")
        .unwrap()
        .get("parameters")
        .unwrap()
        .as_sequence()
        .unwrap();
    assert_eq!(params.len(), 0);
}

#[test]
fn override_file_name_shape() {
    assert_eq!(
        override_file_name(&"myapp".to_string()),
        ".argocd-source-myapp.yaml"
    );
}

#[test]
fn no_change_means_no_commit() {
    let outcomes = vec![
        CandidateOutcome::Unchanged,
        CandidateOutcome::Skipped,
        CandidateOutcome::Unchanged,
    ];
    assert!(!needs_commit(&outcomes));
    assert!(!needs_commit(&vec![]));
    let with_change = vec![CandidateOutcome::Unchanged, CandidateOutcome::Changed];
    assert!(needs_commit(&with_change));
}

#[test]
fn unauthorized_trigger_is_rejected() {
    let configured = "expected-secret".to_string();
    let wrong = "guess".to_string();
    assert!(matches!(
        trigger_action(None, &configured),
        TriggerAction::Reject
    ));
    assert!(matches!(
        trigger_action(Some(&wrong), &configured),
        TriggerAction::Reject
    ));
    assert!(matches!(
        trigger_action(Some(&configured.clone()), &configured),
        TriggerAction::RunUpdate
    ));
}

#[test]
fn yaml_file_names_are_recognized() {
    assert!(is_yaml_file_name(&"app.yaml".to_string()));
    assert!(is_yaml_file_name(&"app.yml".to_string()));
    assert!(!is_yaml_file_name(&"app.json".to_string()));
    assert!(!is_yaml_file_name(&"yaml".to_string()));
}
