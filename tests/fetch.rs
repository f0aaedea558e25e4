use tw_config::config::VersionFrom;
use tw_config::diff::Diff;
use tw_config::error::Error;
use tw_config::fetch::{
    backoff_seconds, batch_in_search_order, branch_pages, identity_versions, newest_first, record_versions, retry_delay,
    search_step, tag_pages, version_from_output, SearchStep, TagCache,
};
use tw_config::lock::{BaseConfig, ImageIdentifier, SingleVersioned, TuxWranglerConfigLocked};
use tw_config::version::find_tag;

fn strings(v: &[&str]) -> Vec<String> {
    v.iter().map(|s| s.to_string()).collect()
}

#[test]
fn branches_are_searched_newest_first() {
    let batch = batch_in_search_order(&strings(&["v1", "v2", "v3"]), VersionFrom::Branch);
    assert_eq!(find_tag("latest", &batch).unwrap(), "v3");
    assert_eq!(find_tag("*", &batch).unwrap(), "v3");
    assert!(find_tag("v*", &batch).is_err());
    assert_eq!(newest_first(&strings(&["a", "b"])), strings(&["b", "a"]));
    assert_eq!(batch_in_search_order(&strings(&["t1", "t2"]), VersionFrom::Tag), strings(&["t1", "t2"]));
}

#[test]
fn backoff_doubles() {
    assert_eq!(backoff_seconds(0), 1);
    assert_eq!(backoff_seconds(3), 8);
    assert_eq!(retry_delay(0), Some(2));
    assert_eq!(retry_delay(3), Some(16));
    assert_eq!(retry_delay(4), None);
}

#[test]
fn page_windows() {
    assert_eq!(tag_pages(0), (0, 4));
    assert_eq!(tag_pages(1), (4, 8));
    assert_eq!(branch_pages(10, 0), Some((6, 10)));
    assert_eq!(branch_pages(10, 1), Some((2, 6)));
    assert_eq!(branch_pages(10, 2), Some((0, 2)));
    assert_eq!(branch_pages(2, 0), Some((0, 2)));
    assert_eq!(branch_pages(4, 1), None);
}

#[test]
fn search_steps() {
    assert!(matches!(search_step("1.*", &strings(&["2.0", "1.5"]), 0), SearchStep::Found(t) if t == "1.5"));
    assert!(matches!(search_step("3.*", &strings(&["2.0"]), 0), SearchStep::Next { offset: 1 }));
    assert!(matches!(search_step("3.*", &strings(&["2.0"]), 4), SearchStep::Exhausted));
}

#[test]
fn tag_cache_keeps_batches() {
    let mut cache = TagCache::new();
    let org = "o".to_string();
    let project = "p".to_string();
    assert!(cache.get(&org, &project, 0).is_none());
    cache.insert(&org, &project, 0, strings(&["a"]));
    cache.insert(&org, &project, 1, strings(&["b"]));
    cache.insert(&org, &project, 0, strings(&["c"]));
    assert_eq!(cache.get(&org, &project, 0), Some(strings(&["c"])));
    assert_eq!(cache.get(&org, &project, 1), Some(strings(&["b"])));
    assert!(cache.get(&org, &"q".to_string(), 1).is_none());
}

#[test]
fn version_is_last_output_line() {
    assert_eq!(version_from_output("img", &strings(&["noise", "3.2.1"])).unwrap(), "3.2.1");
    assert!(matches!(version_from_output("img", &vec![]), Err(Error::NoOutput { .. })));
}

#[test]
fn version_table_records() {
    let mut table = vec![];
    record_versions(&mut table, &"a".to_string(), &identity_versions(&strings(&["1", "2"])));
    assert_eq!(table.len(), 2);
    assert_eq!(table[1].0, SingleVersioned { name: "a".to_string(), version: "2".to_string() });
    assert_eq!(table[1].1, "2");
}

#[test]
fn lock_changes() {
    let old = TuxWranglerConfigLocked { registry: "r".to_string(), bases: vec![], features: vec![], builds: vec![] };
    let new = TuxWranglerConfigLocked { registry: "s".to_string(), bases: vec![], features: vec![], builds: vec![] };
    let changes = old.update_changes(new);
    assert!(matches!(changes.registry, Diff::Changed(a, b) if a == "r" && b == "s"));
    assert!(changes.bases.is_empty());
    assert!(matches!(Diff::option_diff(None, Some("x".to_string())), Some(Diff::Added(x)) if x == "x"));
    assert!(Diff::option_diff(None, None).is_none());
}

fn base(name: &str, version: &str) -> BaseConfig {
    BaseConfig {
        name: name.to_string(),
        version: version.to_string(),
        registry: name.to_string(),
        identifier: ImageIdentifier::Tag { tag: version.to_string() },
        package_manager: "pm".to_string(),
        tag: None,
    }
}

#[test]
fn lock_changes_of_bases() {
    let old = TuxWranglerConfigLocked { registry: "r".to_string(), bases: vec![base("a", "1"), base("b", "1")], features: vec![], builds: vec![] };
    let new = TuxWranglerConfigLocked { registry: "r".to_string(), bases: vec![base("b", "1"), base("c", "2")], features: vec![], builds: vec![] };
    let changes = old.update_changes(new);
    assert!(matches!(changes.registry, Diff::Same(ref r) if r == "r"));
    let mut seen: Vec<String> = changes
        .bases
        .iter()
        .map(|d| match d {
            Diff::Added(s) => format!("+{}", s.to_text()),
            Diff::Removed(s) => format!("-{}", s.to_text()),
            Diff::Same(s) => format!("={}", s.to_text()),
            Diff::Changed(_, _) => "changed".to_string(),
        })
        .collect();
    seen.sort();
    assert_eq!(seen, strings(&["+c-2", "-a-1", "=b-1"]));
}
