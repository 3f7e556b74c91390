use netscope::addr::IpAddr;
use netscope::paths::FilePath;

fn v6(segments: [u16; 8]) -> IpAddr {
    let s = segments;
    IpAddr::V6(s[0], s[1], s[2], s[3], s[4], s[5], s[6], s[7])
}

#[test]
fn addresses_are_written_in_their_shortest_form() {
    assert_eq!(IpAddr::V4(192, 0, 2, 255).to_text(), "192.0.2.255");
    assert_eq!(v6([0; 8]).to_text(), "::");
    assert_eq!(v6([0, 0, 0, 0, 0, 0, 0, 1]).to_text(), "::1");
    assert_eq!(v6([0xfe80, 0, 0, 0, 0, 0, 0, 0]).to_text(), "fe80::");
    assert_eq!(v6([1, 0, 0, 2, 0, 0, 0, 3]).to_text(), "1:0:0:2::3");
    assert_eq!(v6([1, 0, 0, 2, 3, 0, 0, 4]).to_text(), "1::2:3:0:0:4");
    assert_eq!(v6([1, 0, 2, 0, 3, 0, 4, 0]).to_text(), "1:0:2:0:3:0:4:0");
    assert_eq!(v6([0, 0, 0, 0, 0, 0xffff, 0xc000, 0x0201]).to_text(), "::ffff:192.0.2.1");
}

#[test]
fn addresses_read_back_from_their_text() {
    let list = [
        IpAddr::V4(0, 10, 100, 255),
        v6([0; 8]),
        v6([0, 0, 0, 0, 0, 0, 0, 1]),
        v6([1, 0, 0, 2, 0, 0, 0, 3]),
        v6([0x2001, 0xdb8, 0, 1, 0, 0xab, 0, 0xffff]),
        v6([0, 0, 0, 0, 0, 0xffff, 0x0102, 0x0304]),
        v6([1, 2, 3, 4, 5, 6, 7, 8]),
        v6([1, 2, 3, 4, 5, 6, 0, 0]),
    ];
    for ip in list {
        assert_eq!(IpAddr::parse(&ip.to_text()), Some(ip));
    }
}

#[test]
fn other_texts_are_no_addresses() {
    for text in [
        "", "1.2.3", "1.2.3.4.5", "01.2.3.4", "256.1.1.1", "1.2.3.+4", "a.b.c.d", ":::", ":",
        "1:2:3:4:5:6:7", "1:2:3:4:5:6:7:8:9", "1::2::3", "1:2:3:4:5:6:7:8::", "12345::", "::g",
        "1.2.3.4::", "fe80::1%en0", "1::2:3:4:5:6:7:8",
    ] {
        assert_eq!(IpAddr::parse(text), None, "{text}");
    }
    assert_eq!(IpAddr::parse("1:2:3:4:5:6:7::"), Some(v6([1, 2, 3, 4, 5, 6, 7, 0])));
    assert_eq!(IpAddr::parse("::1.2.3.4"), Some(v6([0, 0, 0, 0, 0, 0, 0x0102, 0x0304])));
    assert_eq!(IpAddr::parse("1:2:3:4:5:6:1.2.3.4"), Some(v6([1, 2, 3, 4, 5, 6, 0x0102, 0x0304])));
}

#[test]
fn names_are_replaced_and_tagged_as_in_the_file_system() {
    let tag = |path: &str| FilePath::new(path).with_tag("T", "capture", "pcapng").display();
    assert_eq!(tag("/a/b.c"), "/a/b.T.c");
    assert_eq!(tag("b"), "b.T.pcapng");
    assert_eq!(tag("a/b.x.y"), "a/b.x.T.y");
    assert_eq!(tag(".hidden"), ".hidden.T.pcapng");
    assert_eq!(tag("a/.."), "a/../capture.T.pcapng");
    assert_eq!(tag("/"), "/capture.T.pcapng");
    assert_eq!(tag(""), "capture.T.pcapng");
    assert_eq!(tag("dir/b.c/"), "dir/b.T.c");
    assert_eq!(tag("dir/b.c/."), "dir/b.T.c");
    assert_eq!(tag("dir//b."), "dir/b.T.");
    let odd = FilePath { bytes: b"d/\xff.\xfe".to_vec() };
    assert_eq!(odd.with_tag("T", "capture", "pcapng").display(), "d/capture.T.pcapng");
    assert_eq!(odd.to_text(), None);
    assert_eq!(odd.display(), "d/\u{fffd}.\u{fffd}");
}

#[test]
fn names_agree_with_the_standard_library() {
    for path in [
        "a", "a/b", "/a", "a/", "a//", "a/.", "./a", ".", "..", "a/..", "/", "", "./", "a/./b",
        "//a", "./.", "a/b/./", ".a", "a.", "a..b", "../a", "/.", "...", "a/...", "././b",
    ] {
        let expected = std::path::Path::new(path).with_file_name("n.x");
        assert_eq!(
            FilePath::new(path).with_file_name(b"n.x").display(),
            expected.display().to_string(),
            "{path}"
        );
        let joined = std::path::Path::new(path).join("n.x");
        assert_eq!(
            FilePath::new(path).join(b"n.x").display(),
            joined.display().to_string(),
            "{path}"
        );
        let stem = std::path::Path::new(path).file_stem().and_then(|s| s.to_str());
        let extension = std::path::Path::new(path).extension().and_then(|s| s.to_str());
        let name = format!("{}.T.{}", stem.unwrap_or("s"), extension.unwrap_or("e"));
        assert_eq!(
            FilePath::new(path).with_tag("T", "s", "e").display(),
            std::path::Path::new(path).with_file_name(name).display().to_string(),
            "{path}"
        );
    }
    assert_eq!(FilePath::new("a").join(b"/b").display(), "/b");
}
