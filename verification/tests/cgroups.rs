use rsched::cgroup::{
    collect_cgroup_children_recursive, collect_matches, resolve_cgroup_ids, sorted_ids,
    walk_cgroups, CgroupDir, CgroupEntry, CgroupError,
};
use rsched::pattern::{accept_patterns, compile_patterns};
use std::collections::HashSet;

fn dir(name: &str, id: u64, children: Vec<CgroupEntry>) -> CgroupDir {
    CgroupDir { name: Some(name.to_string()), id: Ok(id), is_dir: true, listing: Ok(children) }
}

fn tree() -> CgroupDir {
    dir(
        "cgroup",
        1,
        vec![
            CgroupEntry::File,
            CgroupEntry::Dir(dir(
                "system.slice",
                2,
                vec![
                    CgroupEntry::Dir(dir("ssh.service", 3, vec![])),
                    CgroupEntry::Dir(dir(
                        "app.service",
                        4,
                        vec![CgroupEntry::Dir(dir("worker", 5, vec![]))],
                    )),
                ],
            )),
            CgroupEntry::Dir(dir(
                "user.slice",
                6,
                vec![CgroupEntry::Dir(dir("app.scope", 7, vec![])), CgroupEntry::File],
            )),
            CgroupEntry::Dir(CgroupDir {
                name: None,
                id: Ok(8),
                is_dir: true,
                listing: Ok(vec![CgroupEntry::Dir(dir("app.hidden", 9, vec![]))]),
            }),
        ],
    )
}

fn resolve(patterns: &[&str], root: &CgroupDir) -> Result<Vec<u64>, String> {
    let patterns: Vec<String> = patterns.iter().map(|p| p.to_string()).collect();
    match resolve_cgroup_ids(&patterns, root) {
        Ok(ids) => Ok(sorted_ids(&ids)),
        Err(e) => Err(e.message()),
    }
}

#[test]
fn a_matching_group_brings_its_children() {
    assert_eq!(resolve(&["^app"], &tree()), Ok(vec![4, 5, 7]));
    assert_eq!(resolve(&["slice$"], &tree()), Ok(vec![2, 3, 4, 5, 6, 7]));
    assert_eq!(resolve(&["worker"], &tree()), Ok(vec![5]));
    assert_eq!(resolve(&["nothing"], &tree()), Ok(vec![]));
    assert_eq!(resolve(&[], &tree()), Ok(vec![]));
}

#[test]
fn the_word_root() {
    assert_eq!(resolve(&["root"], &tree()), Ok(vec![1]));
    assert_eq!(resolve(&["^root$"], &tree()), Ok(vec![1, 2, 3, 4, 5, 6, 7, 8, 9]));
    assert_eq!(resolve(&[".*"], &tree()), Ok(vec![1, 2, 3, 4, 5, 6, 7, 8, 9]));
}

#[test]
fn patterns_add_up() {
    assert_eq!(resolve(&["root", "ssh", "scope"], &tree()), Ok(vec![1, 3, 7]));
    assert_eq!(resolve(&["ssh", "ssh"], &tree()), Ok(vec![3]));
    assert_eq!(resolve(&["scope", "ssh", "root", "ssh"], &tree()), Ok(vec![1, 3, 7]));
}

#[test]
fn a_bad_pattern_is_an_error() {
    let e = resolve(&["ssh", "(", "root"], &tree()).unwrap_err();
    assert_eq!(e, regex::Regex::new("(").unwrap_err().to_string());
    let patterns = vec!["(".to_string()];
    assert!(matches!(resolve_cgroup_ids(&patterns, &tree()), Err(CgroupError::Pattern(_))));
}

#[test]
fn what_cannot_be_read_matters_only_where_it_is_met() {
    let mut root = tree();
    root.id = Err("no id".to_string());
    assert_eq!(resolve(&["ssh"], &root), Ok(vec![3]));
    assert_eq!(resolve(&["root"], &root), Err("no id".to_string()));
    assert_eq!(resolve(&["^root"], &root), Err("no id".to_string()));
    let mut root = tree();
    if let Ok(entries) = &mut root.listing {
        entries.push(CgroupEntry::Failed("broken".to_string()));
    }
    assert_eq!(resolve(&["root"], &root), Ok(vec![1]));
    assert_eq!(resolve(&["ssh"], &root), Err("broken".to_string()));
    assert!(matches!(
        resolve_cgroup_ids(&vec!["ssh".to_string()], &root),
        Err(CgroupError::Read(_))
    ));
}

#[test]
fn an_unlisted_directory() {
    let mut d = dir("x", 1, vec![]);
    d.listing = Err("denied".to_string());
    let mut ids = HashSet::new();
    assert_eq!(collect_cgroup_children_recursive(&d, &mut ids), Err("denied".to_string()));
    assert_eq!(sorted_ids(&ids), vec![1]);
    assert_eq!(walk_cgroups(&d, &vec![], &mut ids), Err("denied".to_string()));
    d.is_dir = false;
    assert_eq!(collect_cgroup_children_recursive(&d, &mut ids), Ok(()));
}

#[test]
fn walking_with_given_names() {
    let mut ids = HashSet::new();
    let names = vec!["app.service".to_string(), "app.hidden".to_string()];
    assert_eq!(walk_cgroups(&tree(), &names, &mut ids), Ok(()));
    assert_eq!(sorted_ids(&ids), vec![4, 5]);
    let mut ids = HashSet::new();
    assert_eq!(collect_matches(&tree(), "x", true, &names, &mut ids), Ok(()));
    assert_eq!(ids.len(), 9);
    let mut ids = HashSet::new();
    assert_eq!(collect_matches(&tree(), "root", true, &names, &mut ids), Ok(()));
    assert_eq!(sorted_ids(&ids), vec![1]);
}

#[test]
fn ids_are_sorted() {
    let ids: HashSet<u64> = [5, 1, u64::MAX, 3, 0].into_iter().collect();
    assert_eq!(sorted_ids(&ids), vec![0, 1, 3, 5, u64::MAX]);
}

#[test]
fn name_filters() {
    assert_eq!(compile_patterns(&vec![]), Ok(None));
    let good = vec!["^a".to_string(), "b+".to_string()];
    assert_eq!(compile_patterns(&good), Ok(Some(good.clone())));
    let bad = vec!["a".to_string(), "[".to_string(), "(".to_string()];
    assert_eq!(compile_patterns(&bad), Err(regex::Regex::new("[").unwrap_err().to_string()));
}

#[test]
fn the_first_finding_is_the_error() {
    let patterns = vec!["a".to_string(), "b".to_string()];
    let findings = vec![None, Some("first".to_string()), Some("second".to_string())];
    assert_eq!(accept_patterns(&patterns, &findings), Err("first".to_string()));
    assert_eq!(accept_patterns(&patterns, &vec![None]), Ok(Some(patterns.clone())));
    assert_eq!(accept_patterns(&vec![], &vec![]), Ok(None));
}
