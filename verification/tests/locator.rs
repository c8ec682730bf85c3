use asset_inator::{Path, Status};

fn parse_ok(t: &str) -> Path {
    Path::parse(t).unwrap()
}

#[test]
fn parse_relative_file() {
    assert_eq!(parse_ok("file:Cargo.toml"), Path::File(String::from("Cargo.toml")));
}

#[test]
fn parse_absolute_file() {
    assert_eq!(parse_ok("file:///tmp/x.png"), Path::File(String::from("/tmp/x.png")));
}

#[test]
fn parse_defaults_to_file_scheme() {
    assert_eq!(parse_ok("some/dir/tex.png"), Path::File(String::from("some/dir/tex.png")));
}

#[test]
fn parse_scheme_case_insensitive() {
    assert_eq!(parse_ok("FILE:a.txt"), Path::File(String::from("a.txt")));
    assert_eq!(
        parse_ok("Bin:pack.bin#DEADBEEF"),
        Path::Chunk(String::from("pack.bin"), Some(0xDEADBEEF))
    );
}

#[test]
fn parse_chunk_without_id() {
    assert_eq!(parse_ok("bin:pack.bin"), Path::Chunk(String::from("pack.bin"), None));
}

#[test]
fn parse_chunk_lowercase_hex() {
    assert_eq!(
        parse_ok("bin:c.bin#deadbeef"),
        Path::Chunk(String::from("c.bin"), Some(0xDEADBEEF))
    );
}

#[test]
fn parse_rejects_unknown_scheme() {
    let e = Path::parse("ftp:host/file").unwrap_err();
    assert_eq!(e.status, Status::Unimplemented);
    assert_eq!(e.message, "Unsupported URI scheme ftp");
}

#[test]
fn parse_rejects_bad_fragment() {
    let e = Path::parse("bin:c.bin#XYZ").unwrap_err();
    assert_eq!(e.status, Status::InvalidArgument);
    let e = Path::parse("bin:c.bin#").unwrap_err();
    assert_eq!(e.status, Status::InvalidArgument);
    // 33 hex digits overflow a 128-bit identifier
    let e = Path::parse("bin:c.bin#100000000000000000000000000000000").unwrap_err();
    assert_eq!(e.status, Status::InvalidArgument);
}

#[test]
fn parse_rejects_bad_scheme_prefix() {
    let e = Path::parse("1ab:x").unwrap_err();
    assert_eq!(e.status, Status::InvalidArgument);
}

#[test]
fn display_forms() {
    assert_eq!(Path::File(String::from("a/b.txt")).display(), "file:a/b.txt");
    assert_eq!(Path::File(String::from("/a/b.txt")).display(), "file:///a/b.txt");
    assert_eq!(Path::Chunk(String::from("p.bin"), None).display(), "bin:p.bin");
    assert_eq!(
        Path::Chunk(String::from("p.bin"), Some(0xDEADBEEF)).display(),
        "bin:p.bin#DEADBEEF"
    );
    assert_eq!(Path::Chunk(String::from("/p.bin"), Some(1)).display(), "bin:///p.bin#1");
    assert_eq!(Path::Chunk(String::from("p.bin"), Some(0)).display(), "bin:p.bin#0");
}

#[test]
fn display_then_parse_round_trips() {
    let samples = vec![
        "file:a.txt",
        "file:///tmp/z",
        "bin:c.bin",
        "bin:c.bin#DEADBEEF",
        "bin:///abs/c.bin#1F",
        "plain/path",
        "FILE:mixed",
        "bin:c.bin#deadbeef",
    ];
    for t in samples {
        let p = Path::parse(t).unwrap();
        let shown = p.display();
        let again = Path::parse(&shown).unwrap();
        assert_eq!(p, again, "round trip failed for {}", t);
        // a canonical text is a fixed point of parse-then-display
        assert_eq!(Path::parse(&shown).unwrap().display(), shown);
    }
}
