use asset_inator::formats::misc::{Bin, Txt};
use asset_inator::{
    derive_key, load, open_byte_source, select_chunk, AssetCache, AssetTag, AssetValue,
    ContainerChunk, Error, Format, LocalCache, Path, Source, Status,
};
use std::cell::Cell;
use std::collections::HashMap;

/// An in-memory byte supplier standing in for the filesystem.
struct MapSource {
    files: HashMap<String, Vec<u8>>,
    containers: HashMap<String, Vec<(u128, Vec<u8>)>>,
}

impl MapSource {
    fn new() -> MapSource {
        MapSource { files: HashMap::new(), containers: HashMap::new() }
    }
}

impl Source for MapSource {
    fn read_file(&self, path: &String) -> Result<Vec<u8>, Error> {
        match self.files.get(path) {
            Some(b) => Ok(b.clone()),
            None => Err(Error::text(Status::Io, "no such file")),
        }
    }

    fn read_container(&self, path: &String) -> Result<Vec<ContainerChunk>, Error> {
        match self.containers.get(path) {
            Some(cs) => Ok(cs
                .iter()
                .map(|(id, bytes)| ContainerChunk { id: *id, bytes: bytes.clone() })
                .collect()),
            None => Err(Error::text(Status::Io, "no such container")),
        }
    }
}

/// A byte format that counts how many times it actually parses.
struct Counting<'a> {
    counter: &'a Cell<usize>,
}

impl<'a> Format for Counting<'a> {
    type Output = Vec<u8>;

    fn tag_spec() -> AssetTag {
        AssetTag::Bytes
    }

    fn id_spec() -> u64 {
        100
    }

    fn tag() -> AssetTag {
        AssetTag::Bytes
    }

    fn format_id() -> u64 {
        100
    }

    fn label() -> String {
        String::from("Counting")
    }

    fn parse(&self, src: &Vec<u8>) -> Result<Vec<u8>, Error> {
        self.counter.set(self.counter.get() + 1);
        Ok(src.clone())
    }

    fn into_asset(out: Vec<u8>) -> AssetValue {
        AssetValue::Bytes(out)
    }

    fn read_asset(a: &AssetValue) -> Option<&Vec<u8>> {
        match a {
            AssetValue::Bytes(b) => Some(b),
            _ => None,
        }
    }
}

/// A format that reuses Txt's key identity but expects a different type.
struct Rogue;

impl Format for Rogue {
    type Output = Vec<u8>;

    fn tag_spec() -> AssetTag {
        AssetTag::Bytes
    }

    fn id_spec() -> u64 {
        2
    }

    fn tag() -> AssetTag {
        AssetTag::Bytes
    }

    fn format_id() -> u64 {
        2 // collides with Txt's identity on purpose
    }

    fn label() -> String {
        String::from("Rogue")
    }

    fn parse(&self, src: &Vec<u8>) -> Result<Vec<u8>, Error> {
        Ok(src.clone())
    }

    fn into_asset(out: Vec<u8>) -> AssetValue {
        AssetValue::Bytes(out)
    }

    fn read_asset(a: &AssetValue) -> Option<&Vec<u8>> {
        match a {
            AssetValue::Bytes(b) => Some(b),
            _ => None,
        }
    }
}

fn hello_source() -> MapSource {
    let mut io = MapSource::new();
    io.files.insert(String::from("hello.txt"), b"hi there".to_vec());
    io.containers.insert(
        String::from("container.bin"),
        vec![(1, b"one".to_vec()), (0xDEADBEEF, b"beef".to_vec())],
    );
    io
}

#[test]
fn load_parses_and_returns_text() {
    let global = AssetCache::new();
    let mut local = LocalCache::new();
    let io = hello_source();
    let h = load("file:hello.txt", &Txt, &global, &mut local, &io).unwrap();
    let text = <Txt as Format>::read_asset(&h).unwrap();
    assert_eq!(text, "hi there");
}

#[test]
fn second_load_reuses_the_cached_asset() {
    let global = AssetCache::new();
    let mut local = LocalCache::new();
    let io = hello_source();
    let calls = Cell::new(0);
    let f = Counting { counter: &calls };
    let h1 = load("file:hello.txt", &f, &global, &mut local, &io).unwrap();
    let h2 = load("file:hello.txt", &f, &global, &mut local, &io).unwrap();
    assert_eq!(calls.get(), 1, "an unreleased handle must suppress a re-parse");
    assert!(std::rc::Rc::ptr_eq(&h1, &h2) || std::sync::Arc::ptr_eq(&*h1, &*h2));
}

#[test]
fn dropping_every_handle_triggers_one_reload() {
    let global = AssetCache::new();
    let mut local = LocalCache::new();
    let io = hello_source();
    let calls = Cell::new(0);
    let f = Counting { counter: &calls };
    let h1 = load("file:hello.txt", &f, &global, &mut local, &io).unwrap();
    drop(h1);
    let _h2 = load("file:hello.txt", &f, &global, &mut local, &io).unwrap();
    assert_eq!(calls.get(), 2, "a reclaimed asset must be parsed exactly once more");
}

#[test]
fn mismatched_type_under_colliding_key_is_invalid_argument() {
    let global = AssetCache::new();
    let mut local = LocalCache::new();
    let io = hello_source();
    let _held = load("file:hello.txt", &Txt, &global, &mut local, &io).unwrap();
    let e = load("file:hello.txt", &Rogue, &global, &mut local, &io).unwrap_err();
    assert_eq!(e.status, Status::InvalidArgument);
    assert!(e.message.contains("Rogue"));
}

#[test]
fn load_propagates_locator_errors() {
    let global = AssetCache::new();
    let mut local = LocalCache::new();
    let io = hello_source();
    let e = load("ftp:x", &Txt, &global, &mut local, &io).unwrap_err();
    assert_eq!(e.status, Status::Unimplemented);
}

#[test]
fn chunk_selection_finds_exact_bytes() {
    let io = hello_source();
    let p = Path::parse("bin:container.bin#DEADBEEF").unwrap();
    let bytes = open_byte_source(&p, &io).unwrap();
    assert_eq!(bytes, b"beef".to_vec());
}

#[test]
fn missing_chunk_is_not_found() {
    let io = hello_source();
    let p = Path::parse("bin:container.bin#ABC").unwrap();
    let e = open_byte_source(&p, &io).unwrap_err();
    assert_eq!(e.status, Status::NotFound);
    assert!(e.message.contains("ABC"));
}

#[test]
fn container_wide_read_is_unimplemented() {
    let io = hello_source();
    let p = Path::parse("bin:container.bin").unwrap();
    let e = open_byte_source(&p, &io).unwrap_err();
    assert_eq!(e.status, Status::Unimplemented);
}

#[test]
fn select_chunk_takes_first_match() {
    let chunks = vec![
        ContainerChunk { id: 7, bytes: b"first".to_vec() },
        ContainerChunk { id: 7, bytes: b"second".to_vec() },
    ];
    assert_eq!(select_chunk(chunks, 7).unwrap(), b"first".to_vec());
}

#[test]
fn loader_wraps_source_errors_with_context() {
    let global = AssetCache::new();
    let mut local = LocalCache::new();
    let io = hello_source();
    let e = load("bin:container.bin#ABC", &Bin, &global, &mut local, &io).unwrap_err();
    assert_eq!(e.status, Status::NotFound);
    assert_eq!(
        e.message,
        "parsing asset bin:container.bin#ABC with format Bin: Chunk not found: ABC"
    );
}

#[test]
fn chunk_load_through_the_loader() {
    let global = AssetCache::new();
    let mut local = LocalCache::new();
    let io = hello_source();
    let h = load("bin:container.bin#1", &Bin, &global, &mut local, &io).unwrap();
    let bytes = <Bin as Format>::read_asset(&h).unwrap();
    assert_eq!(bytes, &b"one".to_vec());
}

#[test]
fn derive_key_is_deterministic_and_discriminates() {
    let p1 = Path::parse("file:hello.txt").unwrap();
    let p2 = Path::parse("file:hello.txt").unwrap();
    let p3 = Path::parse("bin:hello.txt").unwrap();
    assert_eq!(derive_key(&p1, 2), derive_key(&p2, 2));
    assert_ne!(derive_key(&p1, 2), derive_key(&p1, 1));
    assert_ne!(derive_key(&p1, 2), derive_key(&p3, 2));
}

#[test]
fn text_format_rejects_bad_utf8() {
    let e = Txt.parse(&vec![0xff, 0x00]).unwrap_err();
    assert_eq!(e.status, Status::InvalidArgument);
}

#[test]
fn bin_format_returns_bytes_unchanged() {
    let b = Bin.parse(&vec![1, 2, 3]).unwrap();
    assert_eq!(b, vec![1, 2, 3]);
}
