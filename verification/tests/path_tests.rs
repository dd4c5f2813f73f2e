use reachpy_config::path::{extension_of, relative_text_of, same_parent, same_path, stem_of, FilePath};
use std::path::{Component, Path};

const PATHS: [&str; 18] = [
    "",
    "/",
    "a",
    "a/b",
    "a//b/",
    "./a",
    "a/./b",
    "/./a/.",
    "../x/..",
    "/work/my-robot/src/detector.py",
    "/work/my-robot/src/",
    "/work//my-robot/./src/utils.py",
    "src/detector.py",
    ".hidden",
    "archive.tar.gz",
    "name.",
    "//double",
    ".",
];

/// The components `std::path` sees, as (absolute, names).
fn std_comps(p: &str) -> (bool, Vec<String>) {
    let mut absolute = false;
    let mut names = Vec::new();
    for c in Path::new(p).components() {
        match c {
            Component::RootDir => absolute = true,
            Component::CurDir => names.push(".".to_string()),
            Component::ParentDir => names.push("..".to_string()),
            Component::Normal(n) => names.push(n.to_str().unwrap().to_string()),
            Component::Prefix(_) => unreachable!(),
        }
    }
    (absolute, names)
}

#[test]
fn components_agree_with_std_path() {
    for p in PATHS {
        let c = FilePath::new(p).components();
        assert_eq!((c.absolute, c.parts), std_comps(p), "path {:?}", p);
    }
}

#[test]
fn equality_agrees_with_std_path() {
    for a in PATHS {
        for b in PATHS {
            assert_eq!(
                same_path(&FilePath::new(a), &FilePath::new(b)),
                Path::new(a) == Path::new(b),
                "{:?} {:?}",
                a,
                b
            );
        }
    }
}

#[test]
fn parents_agree_with_std_path() {
    for a in PATHS {
        for b in PATHS {
            let std_same = match (Path::new(a).parent(), Path::new(b).parent()) {
                (Some(x), Some(y)) => x == y,
                _ => false,
            };
            let ours = same_parent(&FilePath::new(a), &FilePath::new(b));
            // `Path::parent` of a relative single name is the empty path, which
            // still compares; the components agree with that.
            assert_eq!(ours, std_same, "{:?} {:?}", a, b);
        }
    }
}

#[test]
fn join_agrees_with_std_path() {
    for base in ["/work/my-robot", "/work/my-robot/", "", "rel", "/"] {
        for rel in ["src/a.py", "/abs/b.py", "", "c"] {
            let ours = FilePath::new(base).join(rel);
            let std_joined = Path::new(base).join(rel);
            assert_eq!(ours.text, std_joined.to_str().unwrap(), "{:?} + {:?}", base, rel);
        }
    }
}

#[test]
fn file_names_stems_and_extensions_agree_with_std_path() {
    for p in PATHS {
        let ours = FilePath::new(p).file_name();
        let std_name = Path::new(p).file_name().map(|n| n.to_str().unwrap().to_string());
        assert_eq!(ours, std_name, "path {:?}", p);
        if let Some(name) = ours {
            let std_ext = Path::new(p).extension().map(|e| e.to_str().unwrap().to_string());
            let std_stem = Path::new(p).file_stem().map(|e| e.to_str().unwrap().to_string());
            assert_eq!(extension_of(&name), std_ext, "path {:?}", p);
            assert_eq!(Some(stem_of(&name)), std_stem, "path {:?}", p);
        }
    }
}

/// The text `Path::strip_prefix` leaves, or the whole path when it fails.
fn std_relative(p: &str, base: &str) -> String {
    Path::new(p)
        .strip_prefix(base)
        .map(|r| r.to_str().unwrap().to_string())
        .unwrap_or_else(|_| p.to_string())
}

#[test]
fn relative_text_follows_strip_prefix() {
    let root = "/work/my-robot";
    let cases = [
        ("/work/my-robot/src/detector.py", "src/detector.py"),
        ("/work/my-robot/./src//lib/util.py", "src//lib/util.py"),
        ("/work//my-robot/src/./x.py/", "src/./x.py"),
        ("/work/my-robot", ""),
        ("/work/my-robot/", ""),
        ("/elsewhere/x.py", "/elsewhere/x.py"),
        ("/work/my-robot-two/x.py", "/work/my-robot-two/x.py"),
    ];
    for (p, want) in cases {
        let ours = relative_text_of(&FilePath::new(p), &FilePath::new(root));
        assert_eq!(ours, want, "path {:?}", p);
        assert_eq!(ours, std_relative(p, root), "path {:?}", p);
    }
}

#[test]
fn relative_text_agrees_with_strip_prefix_everywhere() {
    let mut bases: Vec<&str> = PATHS.to_vec();
    bases.extend(["/work", "/work/", "a/b/c", "./a"]);
    let mut paths: Vec<&str> = PATHS.to_vec();
    paths.extend([
        "/work/./my-robot//src/./",
        "/work/my-robot/./.",
        "./a/./b//",
        "./.",
        "./",
        "a/b/c/.",
        "//",
        "/./.",
        "a/b//c/",
    ]);
    for base in &bases {
        for p in &paths {
            let ours = relative_text_of(&FilePath::new(p), &FilePath::new(base));
            assert_eq!(ours, std_relative(p, base), "path {:?} base {:?}", p, base);
        }
    }
}

#[test]
fn relative_text_of_a_joined_path_gives_the_relative_path_back() {
    for base in ["/work/my-robot", "/work/my-robot/", "ws"] {
        let root = FilePath::new(base);
        for (rel, back) in [
            ("src/detector.py", "src/detector.py"),
            ("src/lib/map.py", "src/lib/map.py"),
            ("./src//x.py", "src//x.py"),
            ("./src/./x.py/.", "src/./x.py"),
            ("src/", "src"),
            ("", ""),
        ] {
            let joined = root.join(rel);
            assert_eq!(relative_text_of(&joined, &root), back, "{:?} + {:?}", base, rel);
        }
    }
}
