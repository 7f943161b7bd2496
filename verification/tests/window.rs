use ruach::window::{urlencode, WindowManager};

#[test]
fn encodes_query_characters() {
    assert_eq!(urlencode("notes/风的形状.md"), "notes/%E9%A3%8E%E7%9A%84%E5%BD%A2%E7%8A%B6.md");
    assert_eq!(urlencode("a&b?c#d"), "a%26b%3Fc%23d");
}

#[test]
fn encodes_percent_space_equals_and_controls() {
    assert_eq!(urlencode("100% a=b"), "100%25%20a%3Db");
    assert_eq!(urlencode("tab\there\u{7f}"), "tab%09here%7F");
    assert_eq!(urlencode("a+b.md"), "a%2Bb.md");
    assert_eq!(urlencode(""), "");
}

#[test]
fn window_url_carries_the_document() {
    assert_eq!(WindowManager::window_url(Some("a b.md")), "index.html?doc=a%20b.md");
    assert_eq!(WindowManager::window_url(None), "index.html");
    assert_eq!(WindowManager::window_label(123), "editor-123");
    assert_eq!(WindowManager::window_label(0), "editor-0");
}

fn percent_decode(s: &str) -> Vec<u8> {
    let b = s.as_bytes();
    let mut out = Vec::new();
    let mut i = 0;
    while i < b.len() {
        if b[i] == b'%' {
            out.push(u8::from_str_radix(&s[i + 1..i + 3], 16).unwrap());
            i += 3;
        } else {
            out.push(b[i]);
            i += 1;
        }
    }
    out
}

#[test]
fn urlencoded_paths_read_back_and_are_query_safe() {
    for p in ["notes/风的形状.md", "a b&c=d?e#f%g+h", "tab\t\u{7f}~!", ""] {
        let e = urlencode(p);
        assert_eq!(percent_decode(&e), p.as_bytes());
        assert!(e.chars().all(|c| ('!'..='~').contains(&c) && !"?#&=+".contains(c)));
        let b = e.as_bytes();
        for (i, c) in b.iter().enumerate() {
            if *c == b'%' {
                assert!(i + 2 < b.len());
                assert!(b[i + 1].is_ascii_hexdigit() && !b[i + 1].is_ascii_lowercase());
                assert!(b[i + 2].is_ascii_hexdigit() && !b[i + 2].is_ascii_lowercase());
            }
        }
    }
}
