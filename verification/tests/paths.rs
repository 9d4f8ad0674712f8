use std::path::{Component, Path};

use waygraph::paths::{file_name, file_stem, name_stem, path_components, path_ends_with};

const SAMPLES: &[&str] = &[
    "",
    "/",
    "//",
    ".",
    "..",
    "./",
    "./.",
    "././a",
    "./a/b",
    "a",
    "a/",
    "a//b",
    "a/./b",
    "a/b/.",
    "a/b/..",
    "/a/b",
    "/a/b/",
    "//a",
    ".hidden",
    ".hidden.ttf",
    "..a",
    "a.",
    "a.b.c",
    "fonts/DejaVuSans.ttf",
    "/usr/share/fonts/truetype/dejavu/DejaVuSans.ttf",
    "/usr/share/fonts/truetype/dejavu/DejaVuSans-Bold.ttf",
    "dejavu/DejaVuSans.ttf",
    "DejaVuSans.ttf",
    "DejaVuSans",
    "Sans.ttf",
    "/DejaVuSans.ttf",
    "truetype/../dejavu",
    "é/ü.otf",
];

fn std_components(p: &str) -> Vec<String> {
    Path::new(p)
        .components()
        .map(|c| match c {
            Component::RootDir => "/".to_string(),
            Component::CurDir => ".".to_string(),
            Component::ParentDir => "..".to_string(),
            Component::Normal(s) => s.to_str().unwrap().to_string(),
            Component::Prefix(_) => panic!("no prefixes on unix"),
        })
        .collect()
}

#[test]
fn components_agree_with_std_path() {
    for p in SAMPLES {
        assert_eq!(path_components(p), std_components(p), "components of {:?}", p);
    }
}

#[test]
fn ends_with_agrees_with_std_path() {
    for p in SAMPLES {
        for c in SAMPLES {
            assert_eq!(
                path_ends_with(p, c),
                Path::new(p).ends_with(c),
                "{:?} ends with {:?}",
                p,
                c
            );
        }
    }
}

#[test]
fn file_name_and_stem_agree_with_std_path() {
    for p in SAMPLES {
        let name = Path::new(p).file_name().map(|s| s.to_str().unwrap().to_string());
        let stem = Path::new(p).file_stem().map(|s| s.to_str().unwrap().to_string());
        assert_eq!(file_name(p), name, "file name of {:?}", p);
        assert_eq!(file_stem(p), stem, "file stem of {:?}", p);
    }
}

#[test]
fn components_of_a_font_path() {
    assert_eq!(
        path_components("/usr/share//fonts/./DejaVuSans.ttf/"),
        vec!["/", "usr", "share", "fonts", "DejaVuSans.ttf"]
    );
    assert_eq!(path_components("./a/./b"), vec![".", "a", "b"]);
    assert_eq!(path_components(""), Vec::<String>::new());
}

#[test]
fn ends_with_compares_whole_components() {
    let p = "/usr/share/fonts/DejaVuSans.ttf";
    assert!(path_ends_with(p, "DejaVuSans.ttf"));
    assert!(path_ends_with(p, "fonts/DejaVuSans.ttf"));
    assert!(path_ends_with(p, p));
    assert!(path_ends_with(p, ""));
    assert!(!path_ends_with(p, "Sans.ttf"));
    assert!(!path_ends_with(p, "/DejaVuSans.ttf"));
    assert!(!path_ends_with("a.ttf", "fonts/a.ttf"));
}

#[test]
fn stems_of_names() {
    assert_eq!(name_stem("DejaVuSans.ttf"), "DejaVuSans");
    assert_eq!(name_stem("archive.tar.gz"), "archive.tar");
    assert_eq!(name_stem(".bashrc"), ".bashrc");
    assert_eq!(name_stem("README"), "README");
    assert_eq!(name_stem("a."), "a");
    assert_eq!(file_stem("/a/.."), None);
    assert_eq!(file_stem("/"), None);
    assert_eq!(file_name("dir/x.otf/"), Some("x.otf".to_string()));
}
