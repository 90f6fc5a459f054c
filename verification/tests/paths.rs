use project2::ids::{LanguageServerName, ProjectEntryId, WorktreeId};
use project2::map::{SortedMap, SortedSet};
use project2::model::ProjectPath;
use project2::order::{same, Key, Order};
use project2::path::{glob_literal_prefix, relativize_path, Component, Path};
use project2::sort::sort_by_key;

fn path(text: &str) -> Path {
    let mut components = Vec::new();
    if text.starts_with('/') {
        components.push(Component::RootDir);
    }
    for part in text.split('/') {
        match part {
            "" => {}
            "." => components.push(Component::CurDir),
            ".." => components.push(Component::ParentDir),
            name => components.push(Component::Normal(name.to_string())),
        }
    }
    Path::from_components(components)
}

#[test]
fn paths_drop_current_directories() {
    assert_eq!(path("/a/./b").to_text(), "/a/b");
    assert_eq!(path("./a").to_text(), "./a");
    assert_eq!(path("").to_text(), "");
    assert!(path("").is_empty());
    assert_eq!(path("/").to_text(), "/");
    assert_eq!(path("/a/b").len(), 3);
    assert_eq!(*path("/a/b").component(2), Component::Normal("b".to_string()));
}

#[test]
fn absolute_path_replaces_its_base() {
    assert_eq!(path("/a/b").join(&path("c/d")).to_text(), "/a/b/c/d");
    assert_eq!(path("/a/b").join(&path("/c")).to_text(), "/c");
    assert_eq!(path("/a/b").join(&path("")).to_text(), "/a/b");
    assert!(path("/a").is_absolute());
    assert!(!path("a").is_absolute());
}

#[test]
fn stripping_a_base_undoes_joining_it() {
    let base = path("/home/me/project");
    let tail = path("src/lib.rs");
    let whole = base.join(&tail);
    assert_eq!(whole.to_text(), "/home/me/project/src/lib.rs");
    assert_eq!(whole.strip_prefix(&base).unwrap().to_text(), "src/lib.rs");
    assert!(whole.strip_prefix(&path("/home/me/proj")).is_none());
    assert_eq!(base.join(&whole.strip_prefix(&base).unwrap()).to_text(), whole.to_text());
}

#[test]
fn prefixes_and_suffixes_go_by_components() {
    assert!(path("/a/bc").starts_with(&path("/a")));
    assert!(!path("/a/bc").starts_with(&path("/a/b")));
    assert!(path("/a/bc").ends_with(&path("bc")));
    assert!(!path("/a/bc").ends_with(&path("c")));
    assert!(path("/a/bc/d").has_component("bc"));
    assert!(!path("/a/bc/d").has_component("b"));
}

#[test]
fn parents_and_file_names() {
    assert_eq!(path("/a/b").parent().unwrap().to_text(), "/a");
    assert_eq!(path("/a").parent().unwrap().to_text(), "/");
    assert!(path("/").parent().is_none());
    assert_eq!(path("a").parent().unwrap().to_text(), "");
    assert!(path("").parent().is_none());
    assert_eq!(path("/a/b.rs").file_name(), Some("b.rs".to_string()));
    assert_eq!(path("/").file_name(), None);
    assert_eq!(path("a/..").file_name(), None);
    assert_eq!(path("/a/b/c").without_last(2).to_text(), "/a");
}

#[test]
fn relative_paths_lead_from_the_base_to_the_path() {
    assert_eq!(relativize_path(&path("/a/b"), &path("/a/b/c/d")).to_text(), "c/d");
    assert_eq!(relativize_path(&path("/a/b"), &path("/a/c")).to_text(), "../c");
    assert_eq!(relativize_path(&path("/a/b/c"), &path("/d")).to_text(), "../../../d");
    assert_eq!(relativize_path(&path("/a/b"), &path("/a")).to_text(), "..");
    assert_eq!(relativize_path(&path("/a"), &path("/a")).to_text(), "");
}

#[test]
fn literal_prefix_of_a_glob_ends_before_its_wildcards() {
    assert_eq!(glob_literal_prefix("**/*.js"), "");
    assert_eq!(glob_literal_prefix("node_modules/**/*.js"), "node_modules");
    assert_eq!(glob_literal_prefix("foo/{bar,baz}.js"), "foo");
    assert_eq!(glob_literal_prefix("foo/bar/baz.js"), "foo/bar/baz.js");
    assert_eq!(glob_literal_prefix("foo/b?r"), "foo");
}

#[test]
fn paths_are_ordered_by_their_components() {
    assert_eq!(path("a/b").order(&path("a/c")), Order::Less);
    assert_eq!(path("a").order(&path("a/c")), Order::Less);
    assert_eq!(path("b").order(&path("a/c")), Order::Greater);
    assert_eq!(path("a/b").order(&path("a/b")), Order::Same);
    assert_eq!(path("a-b").order(&path("a/b")), Order::Greater);
    assert!(same(&path("a"), &path("a")));
}

#[test]
fn a_missing_key_comes_first() {
    assert_eq!(None::<u64>.order(&Some(0)), Order::Less);
    assert_eq!(Some(1u64).order(&Some(0)), Order::Greater);
    assert_eq!(None::<u64>.order(&None), Order::Same);
    assert_eq!((1u64, 5u64).order(&(1, 6)), Order::Less);
    assert_eq!((2u64, 5u64).order(&(1, 6)), Order::Greater);
    assert_eq!(3usize.order(&4), Order::Less);
    assert_eq!(4usize.order(&4), Order::Same);
    assert_eq!("ab".to_string().order(&"abc".to_string()), Order::Less);
    assert_eq!("b".to_string().order(&"abc".to_string()), Order::Greater);
}

#[test]
fn project_paths_are_ordered_by_worktree_first() {
    let a = ProjectPath { worktree_id: WorktreeId(1), path: path("z") };
    let b = ProjectPath { worktree_id: WorktreeId(2), path: path("a") };
    assert_eq!(a.order(&b), Order::Less);
    let c: ProjectPath = (WorktreeId(2), path("a")).into();
    assert_eq!(c.order(&b), Order::Same);
    assert_eq!(c, b);
}

#[test]
fn map_keeps_its_keys_in_order() {
    let mut map: SortedMap<u64, &str> = SortedMap::new();
    assert!(map.is_empty());
    assert_eq!(map.insert(3, "c"), None);
    assert_eq!(map.insert(1, "a"), None);
    assert_eq!(map.insert(2, "b"), None);
    assert_eq!(map.insert(2, "B"), Some("b"));
    assert_eq!(map.len(), 3);
    assert_eq!((*map.key_of(0), *map.key_of(1), *map.key_of(2)), (1, 2, 3));
    assert_eq!(*map.value_of(1), "B");
    assert_eq!(map.get(&3), Some(&"c"));
    assert_eq!(map.get(&4), None);
    map.set_at(0, "A");
    assert_eq!(map.get(&1), Some(&"A"));
    assert_eq!(map.remove(&2), Some("B"));
    assert_eq!(map.remove(&2), None);
    assert_eq!(map.remove_at(1), (3, "c"));
    map.clear();
    assert!(map.is_empty());
}

#[test]
fn set_knows_whether_a_member_is_new() {
    let mut set: SortedSet<String> = SortedSet::new();
    assert!(set.insert("b".to_string()));
    assert!(set.insert("a".to_string()));
    assert!(!set.insert("b".to_string()));
    assert_eq!(set.len(), 2);
    assert_eq!(set.item(0), "a");
    assert!(set.contains(&"b".to_string()));
    assert!(set.remove(&"b".to_string()));
    assert!(!set.remove(&"b".to_string()));
    set.clear();
    assert!(set.is_empty());
}

#[test]
fn sorting_keeps_the_order_of_items_with_the_same_key() {
    let sorted = sort_by_key(vec![(2u64, "x"), (1, "p"), (2, "y"), (1, "q")]);
    assert_eq!(sorted, vec![(1, "p"), (1, "q"), (2, "x"), (2, "y")]);
    assert_eq!(sort_by_key(Vec::<(u64, u8)>::new()), vec![]);
}

#[test]
fn ids_survive_the_wire() {
    assert_eq!(WorktreeId::from_proto(WorktreeId(7).to_proto()), WorktreeId(7));
    assert_eq!(WorktreeId(7).to_usize(), 7);
    let mut counter: usize = 4;
    let id = ProjectEntryId::new(&mut counter);
    assert_eq!((id, counter), (ProjectEntryId(4), 5));
    assert_eq!(ProjectEntryId::from_proto(id.to_proto()), id);
    assert_eq!(ProjectEntryId::max().to_usize(), usize::MAX);
    assert_eq!(LanguageServerName("a".to_string()).clone().0, "a");
}
