use ysos::path::{formatting_path, get_path, join_path, mycd, myls, split_path};

fn strings(v: &[&str]) -> Vec<String> {
    v.iter().map(|s| s.to_string()).collect()
}

#[test]
fn split_path_drops_empty_pieces() {
    assert_eq!(split_path(&"/usr//bin/".to_string()), strings(&["usr", "bin"]));
    assert_eq!(split_path(&"a/b".to_string()), strings(&["a", "b"]));
    assert_eq!(split_path(&"/".to_string()), strings(&[]));
    assert_eq!(split_path(&"".to_string()), strings(&[]));
}

#[test]
fn formatting_path_resolves_dots() {
    assert_eq!(formatting_path(&strings(&["a", ".", "b", "..", "c"])), strings(&["a", "c"]));
    assert_eq!(formatting_path(&strings(&["..", "..", "x"])), strings(&["x"]));
    assert_eq!(formatting_path(&strings(&["a", "..", ".."])), strings(&[]));
}

#[test]
fn join_path_of_empty_is_root() {
    assert_eq!(join_path(&strings(&[])), "/");
    assert_eq!(join_path(&strings(&["APP", "shell"])), "/APP/shell");
}

#[test]
fn get_path_relative_and_absolute() {
    let cur = "/APP".to_string();
    assert_eq!(get_path(&"shell".to_string(), &cur), "/APP/shell");
    assert_eq!(get_path(&"../hello.txt".to_string(), &cur), "/hello.txt");
    assert_eq!(get_path(&"/a/./b/../c/".to_string(), &cur), "/a/c");
    assert_eq!(get_path(&"..".to_string(), &"/".to_string()), "/");
}

#[test]
fn get_path_is_idempotent() {
    let cur = "/x/y".to_string();
    let once = get_path(&"../z/./w".to_string(), &cur);
    assert_eq!(once, "/x/z/w");
    assert_eq!(get_path(&once, &"/elsewhere".to_string()), once);
}

#[test]
fn mycd_and_myls() {
    let mut cur = "/".to_string();
    mycd("APP", &mut cur);
    assert_eq!(cur, "/APP");
    mycd("..", &mut cur);
    assert_eq!(cur, "/");
    assert_eq!(myls(".", &"/APP".to_string()), "/APP");
}

#[test]
fn join_then_split_gives_the_pieces_back() {
    let pieces = strings(&["APP", "bin", "x.txt"]);
    assert_eq!(split_path(&join_path(&pieces)), pieces);
    assert_eq!(split_path(&join_path(&strings(&[]))), strings(&[]));
    // a resolved path is canonical: resolving it again changes nothing
    let p = get_path(&"a/../b/./c".to_string(), &"/r".to_string());
    assert_eq!(p, "/r/b/c");
    assert_eq!(join_path(&formatting_path(&split_path(&p))), p);
}

#[test]
fn join_then_split_keeps_dot_components() {
    let v = strings(&["a", ".", "..", "b.txt"]);
    assert_eq!(split_path(&join_path(&v)), v);
}

#[test]
fn formatting_path_is_idempotent_and_keeps_order() {
    let v = strings(&["a", "b", "..", ".", "c", "..", "..", "d", "e"]);
    let r = formatting_path(&v);
    assert_eq!(r, strings(&["d", "e"]));
    assert_eq!(formatting_path(&r), r);
    assert!(r.len() <= v.len());
    assert!(r.iter().all(|c| c != "." && c != ".."));
}
