use qmux_endpoint::path::autoindex;
use qmux_endpoint::path::basename;
use qmux_endpoint::path::file_path;
use qmux_endpoint::response::file_response;
use qmux_endpoint::response::route;
use qmux_endpoint::response::stream_bytes_response;
use qmux_endpoint::response::Route;
use std::path::Component;
use std::path::Path;
use std::path::PathBuf;

fn stream_bytes(path: &str) -> usize {
    match route(path, "/www") {
        Route::StreamBytes(n) => n,
        Route::File(file) => panic!("{}", file),
    }
}

fn file(path: &str, root: &str) -> String {
    match route(path, root) {
        Route::StreamBytes(n) => panic!("{}", n),
        Route::File(file) => file,
    }
}

#[test]
fn stream_bytes_counts() {
    assert_eq!(stream_bytes("/stream-bytes/0"), 0);
    assert_eq!(stream_bytes("/stream-bytes/1000000"), 1_000_000);
    assert_eq!(stream_bytes("/stream-bytes/+42"), 42);
    assert_eq!(stream_bytes("/stream-bytes/007"), 7);
    assert_eq!(stream_bytes(&format!("/stream-bytes/{}", usize::MAX)), usize::MAX);
}

#[test]
fn stream_bytes_without_a_number_is_empty() {
    for suffix in ["", "+", "-1", "x", "1x", " 1", "1 ", "++1", "1_000", "99999999999999999999999"] {
        assert_eq!(stream_bytes(&format!("/stream-bytes/{}", suffix)), 0);
    }
}

#[test]
fn stream_bytes_body_is_fill() {
    assert_eq!(stream_bytes_response(0), (200, vec![]));
    assert_eq!(stream_bytes_response(5), (200, b"WWWWW".to_vec()));
}

#[test]
fn other_paths_name_files() {
    assert_eq!(file("/index.html", "/www"), "/www/index.html");
    assert_eq!(file("/stream-bytes", "/www"), "/www/stream-bytes");
    assert_eq!(file("stream-bytes/5", "/www"), "/www/stream-bytes/5");
    assert_eq!(file("/a/b/c.txt", "."), "./a/b/c.txt");
    assert_eq!(file("/", "/www"), "/www");
    assert_eq!(file("", "/www"), "/www");
}

#[test]
fn files_stay_below_root() {
    assert_eq!(file("/../../etc/passwd", "/www"), "/www/etc/passwd");
    assert_eq!(file("/a/../b", "/www"), "/www/a/b");
    assert_eq!(file("..", "/www"), "/www");
    assert_eq!(file("//etc//passwd/", "/www/"), "/www/etc/passwd");
    assert_eq!(file("/./a/./b", "/www"), "/www/a/b");
    assert_eq!(file("/...", "/www"), "/www/...");
    assert_eq!(file("/a", ""), "a");
}

#[test]
fn file_path_is_that_of_std() {
    for root in ["", ".", "/", "/www", "/www/", "a/b"] {
        for path in ["", "/", "a", "/a/b", "//a", "a//b/", "./a", "/./..", "a/../b", "/..a/b..", "\u{e9}/x"] {
            let mut expected = PathBuf::from(root);
            for c in Path::new(path).components() {
                if let Component::Normal(v) = c {
                    expected.push(v);
                }
            }
            assert_eq!(file_path(root, path), expected.to_str().unwrap());
        }
    }
}

#[test]
fn directories_are_indexed() {
    assert_eq!(autoindex("/www".to_string(), true, "index.html"), "/www/index.html");
    assert_eq!(autoindex("/www/".to_string(), true, "index.html"), "/www/index.html");
    assert_eq!(autoindex("/www/a".to_string(), false, "index.html"), "/www/a");
    for path in ["", "/", "/www", "a/"] {
        for index in ["", "index.html", "/abs", "../x"] {
            assert_eq!(
                autoindex(path.to_string(), true, index),
                Path::new(path).join(index).to_str().unwrap()
            );
        }
    }
}

#[test]
fn files_are_served_or_missed() {
    assert_eq!(file_response(Some(b"hello".to_vec())), (200, b"hello".to_vec()));
    assert_eq!(file_response(Some(vec![])), (200, vec![]));
    assert_eq!(file_response(None), (404, b"Not Found!\r\n".to_vec()));
}

#[test]
fn basename_is_what_follows_the_last_slash() {
    for path in ["", "/", "a", "/a", "/a/b.bin", "/a/b/", "//", "/\u{e9}"] {
        assert_eq!(basename(path), path.rsplit('/').next().unwrap());
    }
    assert_eq!(basename("/some/file.bin"), "file.bin");
}
