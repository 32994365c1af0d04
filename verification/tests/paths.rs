use engine::paths::{extension_of_path, file_stem_of_path};

fn ext(p: &str) -> Option<String> {
    extension_of_path(p)
}

#[test]
fn extensions_as_std_reads_them() {
    for p in [
        "foo.rs", "foo.tar.gz", ".hidden", ".hidden.txt", "foo", "foo.", "dir/foo.txt", "dir.d/foo", "foo.txt/",
        "foo.txt/.", "foo.txt//", "a/..", "..", ".", "", "/", "./x.y", "a/./b.c", "...", "a..b",
    ] {
        let expected = std::path::Path::new(p).extension().map(|e| e.to_str().unwrap().to_string());
        assert_eq!(ext(p), expected, "path {:?}", p);
    }
}

#[test]
fn stems_as_std_reads_them() {
    for p in [
        "foo.rs", "foo.tar.gz", ".hidden", ".hidden.txt", "foo", "foo.", "dir/foo.txt", "scenes/level1.scene",
        "foo.txt/", "a/..", "..", ".", "", "/", "...", "a..b",
    ] {
        let expected = std::path::Path::new(p).file_stem().map(|e| e.to_str().unwrap().to_string());
        assert_eq!(file_stem_of_path(p), expected, "path {:?}", p);
    }
}

#[test]
fn simple_extension_values() {
    assert_eq!(ext("menu.uiprefab"), Some("uiprefab".to_string()));
    assert_eq!(ext("levels/world.ldtk"), Some("ldtk".to_string()));
    assert_eq!(ext("noext"), None);
}
