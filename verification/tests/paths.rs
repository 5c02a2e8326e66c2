use sglaz::paths::{change_extension, join, parent, strip_first};
use std::path::{Path, PathBuf};

/// Every text of up to six characters over a small alphabet of path pieces.
fn short_paths() -> Vec<String> {
    let mut out = vec![String::new()];
    let mut last = out.clone();
    for _ in 0..6 {
        let mut next = Vec::new();
        for p in &last {
            for c in ['/', '.', 'a'] {
                let mut q = p.clone();
                q.push(c);
                next.push(q);
            }
        }
        out.extend(next.iter().cloned());
        last = next;
    }
    out
}

#[test]
fn parent_agrees_with_std() {
    for p in short_paths() {
        let want = Path::new(&p).parent().map(|x| x.to_string_lossy().to_string());
        assert_eq!(parent(&p), want, "{:?}", p);
    }
}

#[test]
fn join_agrees_with_std() {
    let some: Vec<String> = short_paths().into_iter().filter(|p| p.len() <= 3).collect();
    for a in &some {
        for b in &some {
            let want = Path::new(a).join(b).to_string_lossy().to_string();
            assert_eq!(join(a, b), want, "{:?} {:?}", a, b);
        }
    }
}

#[test]
fn strip_first_agrees_with_std() {
    for p in short_paths() {
        let want: PathBuf = Path::new(&p).components().skip(1).collect();
        assert_eq!(strip_first(p.as_bytes()), want.into_os_string().into_encoded_bytes(), "{:?}", p);
    }
}

#[test]
fn strip_first_drops_the_wrapping_directory() {
    assert_eq!(strip_first(b"owner-repo-abc/src/main.rs"), b"src/main.rs");
    assert_eq!(strip_first(b"owner-repo-abc/"), b"");
    assert_eq!(strip_first(b"/etc/passwd"), b"etc/passwd");
    assert_eq!(strip_first(b"./a/b"), b"a/b");
    assert_eq!(strip_first(b"top/../x"), b"../x");
    assert_eq!(strip_first(&[b'a', b'/', 0xff, b'/', b'b']), &[0xff, b'/', b'b']);
}

#[test]
fn parent_of_a_child_is_its_directory() {
    for (dir, name) in [("/srv/app", "x"), ("rel", "y.z"), ("/", "top")] {
        assert_eq!(parent(&join(dir, name)).as_deref(), Some(dir));
    }
}

#[test]
fn change_extension_replaces_the_last_extension() {
    assert_eq!(change_extension("/r/current", "new"), "/r/current.new");
    assert_eq!(change_extension("/r/a.b", "new"), "/r/a.new");
    assert_eq!(change_extension("/r/a.b.c", "new"), "/r/a.b.new");
    assert_eq!(change_extension("/r/.env", "new"), "/r/.env.new");
    assert_eq!(change_extension("/r/a.b/", "new"), "/r/a.new");
    assert_eq!(change_extension("/r.d/a", "new"), "/r.d/a.new");
    assert_eq!(change_extension("/", "new"), "/");
    assert_eq!(change_extension("", "new"), "");
    assert_eq!(change_extension("a/..", "new"), "a/..");
}

#[test]
fn change_extension_agrees_with_std() {
    for p in short_paths() {
        let mut want = PathBuf::from(&p);
        want.set_extension("new");
        assert_eq!(change_extension(&p, "new"), want.to_string_lossy(), "{:?}", p);
    }
}
