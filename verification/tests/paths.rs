use draco_open_api::nomalize_play_variable_path;
use draco_open_api::text::blank;

fn normalize(path: &str) -> String {
    nomalize_play_variable_path(path.to_string())
}

#[test]
fn placeholder_gets_a_colon() {
    assert_eq!("/users/:userId", normalize("/users/{userId}"));
}

#[test]
fn every_placeholder_is_rewritten() {
    assert_eq!("/a/:b/c/:d", normalize("/a/{b}/c/{d}"));
    assert_eq!(":only", normalize("{only}"));
}

#[test]
fn path_without_placeholder_is_unchanged() {
    for path in ["", "/", "/users", "/users/", "//", "/a/b/c", "users", "/a:b/c"] {
        assert_eq!(path, normalize(path));
    }
}

#[test]
fn partial_braces_are_passed_through() {
    for path in ["/users/{userId", "/users/userId}", "/x{y}", "/{y}z", "/{", "/}", "/}{"] {
        assert_eq!(path, normalize(path));
    }
}

#[test]
fn empty_braces_leave_the_colon() {
    assert_eq!("/:", normalize("/{}"));
}

#[test]
fn inner_braces_leave_too() {
    assert_eq!("/:ab", normalize("/{a{b}"));
    assert_eq!("/:ab", normalize("/{a}b}"));
    assert_eq!("/:a/:b", normalize("/{{a}}/{b}"));
}

#[test]
fn line_feed_between_the_braces_prevents_a_placeholder() {
    assert_eq!("/{a\nb}", normalize("/{a\nb}"));
    assert_eq!("/:a\rb", normalize("/{a\rb}"));
}

#[test]
fn characters_outside_ascii_are_kept() {
    assert_eq!("/:候補者/é", normalize("/{候補者}/é"));
}

#[test]
fn last_segment_alone_is_normalized() {
    for (segment, expected) in [
        ("", ""),
        ("x", "x"),
        ("{x}", ":x"),
        ("{x", "{x"),
        ("{}", ":"),
        ("{a}{b}", ":ab"),
    ] {
        let path = format!("/a/{}", segment);
        assert_eq!(format!("/a/{}", expected), normalize(&path));
    }
}

#[test]
fn normalizing_twice_changes_nothing() {
    for path in ["/users/{userId}", "/{a}/{b}/c", "/{}", "/{{x}}", "/plain", "{a{b}"] {
        let once = normalize(path);
        assert_eq!(once, normalize(&once));
    }
}

#[test]
fn blank_agrees_with_the_standard_library() {
    let mut code: u32 = 0;
    while code <= 0x10FFFF {
        if let Some(c) = char::from_u32(code) {
            assert_eq!(c.is_whitespace(), blank(&c.to_string()), "U+{:04X}", code);
        }
        code += 1;
    }
}

#[test]
fn blank_texts() {
    assert!(blank(""));
    assert!(blank(" \t\r\n\u{3000}"));
    assert!(!blank(" a "));
    assert!(!blank("候"));
}

#[test]
fn line_feed_after_the_braces_prevents_a_placeholder() {
    assert_eq!("/{a}\n", normalize("/{a}\n"));
    assert_eq!("/\n{a}", normalize("/\n{a}"));
}

fn expected_segment(segment: &[char]) -> String {
    let n = segment.len();
    let wrapped = n >= 2
        && segment[0] == '{'
        && segment[n - 1] == '}'
        && segment[1..n - 1].iter().all(|c| *c != '\n');
    if wrapped {
        let mut out = String::from(":");
        for c in segment {
            if *c != '{' && *c != '}' {
                out.push(*c);
            }
        }
        out
    } else {
        segment.iter().collect()
    }
}

fn expected_path(path: &[char]) -> String {
    let mut out = String::new();
    let mut first = true;
    for segment in path.split(|c| *c == '/') {
        if !first {
            out.push('/');
        }
        first = false;
        out.push_str(&expected_segment(segment));
    }
    out
}

#[test]
fn every_short_path_is_normalized_segment_by_segment() {
    let alphabet = ['{', '}', '\n', 'a', '/'];
    let mut paths: Vec<Vec<char>> = vec![Vec::new()];
    let mut from = 0;
    for _ in 0..4 {
        let to = paths.len();
        for i in from..to {
            for c in alphabet {
                let mut longer = paths[i].clone();
                longer.push(c);
                paths.push(longer);
            }
        }
        from = to;
    }
    assert_eq!(1 + 5 + 25 + 125 + 625, paths.len());
    for path in paths {
        let text: String = path.iter().collect();
        assert_eq!(expected_path(&path), normalize(&text), "{:?}", text);
    }
}
