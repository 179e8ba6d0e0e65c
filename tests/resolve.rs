use pacman_dl::index::{index_packages_by_name, PackageIndex};
use pacman_dl::package::{Dependency, PackageRecord, Provision};
use pacman_dl::resolve::{DependencyResolver, ResolveError};

fn record(name: &str, depends: &[&str], provides: &[&str]) -> PackageRecord {
    PackageRecord {
        name: name.to_string(),
        filename: format!("{}-1.0-1-x86_64.pkg.tar.zst", name),
        compressed_size: 0,
        sha256sum: String::new(),
        depends: depends.iter().map(|d| Dependency::parse(d)).collect(),
        provides: provides.iter().map(|p| Provision::parse(p)).collect(),
    }
}

fn targets(names: &[&str]) -> Vec<String> {
    names.iter().map(|n| n.to_string()).collect()
}

fn names(index: &PackageIndex, selection: &[usize]) -> Vec<String> {
    let mut out: Vec<String> = selection.iter().map(|&j| index.record(j).name.clone()).collect();
    out.sort();
    out
}

fn resolve(index: &PackageIndex, wanted: &[&str]) -> Result<Vec<String>, ResolveError> {
    DependencyResolver::new(index).resolve(&targets(wanted)).map(|sel| names(index, &sel))
}

fn entry_repository(index: &PackageIndex, name: &str) -> usize {
    let j = index.find(name).unwrap();
    index.entries[j].0
}

#[test]
fn earlier_repository_wins_on_collision() {
    let core = vec![record("foo", &[], &[]), record("bar", &[], &[])];
    let extra = vec![record("foo", &["baz"], &[]), record("qux", &[], &[])];
    let index = index_packages_by_name(vec![core.clone(), extra.clone()]);
    assert_eq!(index.entries.len(), 3);
    assert_eq!(entry_repository(&index, "foo"), 0);
    assert_eq!(entry_repository(&index, "qux"), 1);
    assert_eq!(index.duplicates, vec![(1, 0)]);

    let index = index_packages_by_name(vec![extra, core]);
    assert_eq!(entry_repository(&index, "foo"), 0);
    assert_eq!(index.record(index.find("foo").unwrap()).depends.len(), 1);
    assert_eq!(index.duplicates, vec![(1, 0)]);
}

#[test]
fn duplicate_within_one_repository_keeps_first() {
    let repo = vec![record("foo", &["a"], &[]), record("foo", &[], &[])];
    let index = index_packages_by_name(vec![repo]);
    assert_eq!(index.entries, vec![(0, 0)]);
    assert_eq!(index.duplicates, vec![(0, 1)]);
}

#[test]
fn providers_hold_named_and_declaring_packages_only() {
    let repo = vec![
        record("sh", &[], &[]),
        record("bash", &[], &["sh"]),
        record("zsh", &[], &["zsh-compat"]),
        record("dash", &[], &["sh=0.5"]),
    ];
    let index = index_packages_by_name(vec![repo]);
    assert_eq!(index.providers("sh"), vec![0, 1, 3]);
    assert_eq!(index.providers("zsh-compat"), vec![2]);
    assert_eq!(index.providers("fish"), Vec::<usize>::new());
}

#[test]
fn empty_targets_select_nothing() {
    let index = index_packages_by_name(vec![vec![record("foo", &["missing"], &[])]]);
    assert_eq!(resolve(&index, &[]), Ok(vec![]));
}

#[test]
fn real_package_without_dependencies_selects_itself() {
    let index = index_packages_by_name(vec![vec![record("foo", &[], &[]), record("bar", &[], &[])]]);
    assert_eq!(resolve(&index, &["foo"]), Ok(targets(&["foo"])));
}

#[test]
fn virtual_target_with_one_provider() {
    let repo = vec![
        record("jre-openjdk", &["java-environment-common", "libfoo>=2"], &["java-runtime=17"]),
        record("java-environment-common", &[], &[]),
        record("libfoo", &["glibc"], &[]),
        record("glibc", &[], &[]),
        record("unrelated", &[], &[]),
    ];
    let index = index_packages_by_name(vec![repo]);
    assert_eq!(
        resolve(&index, &["java-runtime"]),
        Ok(targets(&["glibc", "java-environment-common", "jre-openjdk", "libfoo"]))
    );
}

#[test]
fn shared_dependency_selected_once() {
    let repo = vec![
        record("a", &["c"], &[]),
        record("b", &["c>=1"], &[]),
        record("c", &[], &[]),
    ];
    let index = index_packages_by_name(vec![repo]);
    let selection = DependencyResolver::new(&index).resolve(&targets(&["a", "b"])).unwrap();
    assert_eq!(selection.len(), 3);
    let c = index.find("c").unwrap();
    assert_eq!(selection.iter().filter(|&&j| j == c).count(), 1);
}

#[test]
fn unknown_target_fails() {
    let index = index_packages_by_name(vec![vec![record("foo", &[], &[])]]);
    assert_eq!(
        resolve(&index, &["nothing"]),
        Err(ResolveError::UnresolvedTarget("nothing".to_string()))
    );
}

#[test]
fn missing_dependency_fails() {
    let index = index_packages_by_name(vec![vec![record("foo", &["gone"], &[])]]);
    assert_eq!(resolve(&index, &["foo"]), Err(ResolveError::UnresolvedTarget("gone".to_string())));
}

#[test]
fn provider_with_first_name_is_chosen() {
    let repo = vec![
        record("zsh", &[], &["shell"]),
        record("bash", &[], &["shell"]),
        record("fish", &[], &["shell"]),
    ];
    let index = index_packages_by_name(vec![repo]);
    assert_eq!(resolve(&index, &["shell"]), Ok(targets(&["bash"])));
}

#[test]
fn explicit_target_selected_although_provided() {
    let repo = vec![record("bash", &[], &["sh"]), record("sh", &[], &[])];
    let index = index_packages_by_name(vec![repo]);
    assert_eq!(resolve(&index, &["bash", "sh"]), Ok(targets(&["bash", "sh"])));
}

#[test]
fn dependency_provided_by_selected_package_is_skipped() {
    let repo = vec![
        record("app", &["sh"], &[]),
        record("bash", &[], &["sh"]),
        record("sh", &[], &[]),
    ];
    let index = index_packages_by_name(vec![repo]);
    assert_eq!(resolve(&index, &["app", "bash"]), Ok(targets(&["app", "bash"])));
}

#[test]
fn virtual_target_provided_by_explicit_target() {
    let repo = vec![record("bash", &[], &["sh"]), record("dash", &[], &["sh"])];
    let index = index_packages_by_name(vec![repo]);
    assert_eq!(resolve(&index, &["sh", "dash"]), Ok(targets(&["dash"])));
}

#[test]
fn virtual_target_resolves_despite_unrelated_broken_package() {
    let repo = vec![
        record("openjdk", &["zlib"], &["java"]),
        record("zlib", &[], &[]),
        record("broken", &["gone"], &[]),
    ];
    let index = index_packages_by_name(vec![repo]);
    assert_eq!(resolve(&index, &["java"]), Ok(targets(&["openjdk", "zlib"])));
}

#[test]
fn result_does_not_depend_on_target_order() {
    let repo = vec![
        record("a", &["shell"], &[]),
        record("b", &["shell"], &[]),
        record("zsh", &[], &["shell"]),
        record("bash", &[], &["shell"]),
    ];
    let index = index_packages_by_name(vec![repo]);
    assert_eq!(resolve(&index, &["a", "b"]), Ok(targets(&["a", "b", "bash"])));
    assert_eq!(resolve(&index, &["b", "a"]), Ok(targets(&["a", "b", "bash"])));
}
