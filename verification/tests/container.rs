use beamr::error::LoadError;
use beamr::loader::embed::{
    archive_pack, embedded_module_bytes, embedded_module_names, empty_archive_bytes, magic,
    module_name_of, pack_in_order, sort_modules, write_entry, EmbedError, EmbeddedArchive,
    IoFailure, ModuleFile, HEADER_LEN, MAGIC_LEN, ZSTD_LEVEL,
};
use beamr::loader::parser::parse_beam_chunks;
use std::io::Cursor;

#[test]
fn parses_valid_container_chunks() {
    let mut bytes = Vec::new();
    bytes.extend_from_slice(b"FOR1");
    bytes.extend_from_slice(&16u32.to_be_bytes());
    bytes.extend_from_slice(b"BEAM");
    bytes.extend_from_slice(b"StrT");
    bytes.extend_from_slice(&3u32.to_be_bytes());
    bytes.extend_from_slice(b"abc");
    bytes.push(0);

    let chunks = parse_beam_chunks(&bytes).expect("valid handcrafted BEAM container");
    assert_eq!(chunks.len(), 1);
    assert_eq!(chunks[0].0, *b"StrT");
    assert_eq!(chunks[0].1, b"abc");
}

#[test]
fn rejects_bad_magic() {
    let bytes = b"NOPE\0\0\0\x04BEAM";
    assert_eq!(parse_beam_chunks(bytes), Err(LoadError::InvalidFormat));
}

#[test]
fn rejects_wrong_form_type() {
    let bytes = b"FOR1\0\0\0\x04NOPE";
    assert_eq!(parse_beam_chunks(bytes), Err(LoadError::InvalidFormat));
}

#[test]
fn rejects_a_chunk_that_is_cut_short() {
    let mut bytes = Vec::new();
    bytes.extend_from_slice(b"FOR1");
    bytes.extend_from_slice(&15u32.to_be_bytes());
    bytes.extend_from_slice(b"BEAM");
    bytes.extend_from_slice(b"StrT");
    bytes.extend_from_slice(&9u32.to_be_bytes());
    bytes.extend_from_slice(b"abc");
    assert_eq!(parse_beam_chunks(&bytes), Err(LoadError::InvalidFormat));
}

fn pack_entries(entries: &[(&str, &[u8])]) -> Vec<u8> {
    let mut bytes = empty_archive_bytes();
    let count = u32::try_from(entries.len()).expect("test module count fits u32");
    bytes[MAGIC_LEN + 1..HEADER_LEN].copy_from_slice(&count.to_le_bytes());
    for (name, beam) in entries {
        let compressed = zstd::stream::encode_all(Cursor::new(*beam), ZSTD_LEVEL)
            .expect("test zstd compression succeeds");
        write_entry(&mut bytes, name, &compressed).expect("test entry is encodable");
    }
    bytes
}

#[test]
fn parse_empty_bytes_returns_invalid_archive() {
    assert_eq!(EmbeddedArchive::parse(&[]), Err(EmbedError::InvalidArchive));
}

#[test]
fn invalid_magic_or_version_returns_invalid_archive() {
    let mut bytes = empty_archive_bytes();
    bytes[0] = b'X';
    assert_eq!(
        EmbeddedArchive::parse(&bytes),
        Err(EmbedError::InvalidArchive)
    );

    let mut bytes = empty_archive_bytes();
    bytes[MAGIC_LEN] = 2;
    assert_eq!(
        EmbeddedArchive::parse(&bytes),
        Err(EmbedError::InvalidArchive)
    );
}

#[test]
fn archive_round_trip_returns_original_beam_bytes() {
    let archive_bytes = pack_entries(&[
        ("alpha", b"alpha beam"),
        ("beta", b"beta beam bytes"),
        ("gamma", b"\0beam\xffdata"),
    ]);
    let archive = EmbeddedArchive::parse(&archive_bytes).expect("archive parses");

    assert_eq!(archive.get("alpha"), Some(b"alpha beam".to_vec()));
    assert_eq!(archive.get("beta"), Some(b"beta beam bytes".to_vec()));
    assert_eq!(archive.get("gamma"), Some(b"\0beam\xffdata".to_vec()));
    assert_eq!(archive.get("missing"), None);
}

fn file(name: &str, beam: &[u8]) -> ModuleFile {
    ModuleFile {
        name: name.to_string(),
        beam: beam.to_vec(),
    }
}

#[test]
fn archive_pack_sorts_beam_files_and_skips_non_beam_files() {
    let packed = archive_pack(vec![
        file("zeta", b"z"),
        file("alpha", b"a"),
        file("middle", b"m"),
    ])
    .expect("pack archive");
    assert!(packed.starts_with(&magic()));
    let count_offset = MAGIC_LEN + 1;
    let count = u32::from_le_bytes([
        packed[count_offset],
        packed[count_offset + 1],
        packed[count_offset + 2],
        packed[count_offset + 3],
    ]);
    assert_eq!(count, 3);

    let archive = EmbeddedArchive::parse(&packed).expect("archive parses");
    assert_eq!(archive.module_names(), vec!["alpha", "middle", "zeta"]);
    assert_eq!(archive.get("alpha"), Some(b"a".to_vec()));
    assert_eq!(archive.get("middle"), Some(b"m".to_vec()));
    assert_eq!(archive.get("zeta"), Some(b"z".to_vec()));
}

#[test]
fn archive_pack_empty_directory_is_valid_empty_archive() {
    let packed = archive_pack(Vec::new()).expect("pack empty archive");
    assert_eq!(packed, empty_archive_bytes());
    let archive = EmbeddedArchive::parse(&packed).expect("empty archive parses");
    assert_eq!(archive.module_names(), Vec::<&str>::new());
}

#[test]
fn packed_modules_are_compressed_and_read_back() {
    let beam = vec![7u8; 4096];
    let packed = pack_in_order(&vec![file("long", &beam)]).expect("pack");
    assert!(packed.len() < 1024);
    assert_eq!(embedded_module_bytes(&packed, "long"), Some(beam));
    assert_eq!(embedded_module_names(&packed), vec!["long".to_string()]);
    assert_eq!(embedded_module_names(b"no archive"), Vec::<String>::new());
    let archive = EmbeddedArchive::parse(&packed).expect("archive parses");
    let modules = archive.modules();
    assert_eq!(modules.len(), 1);
    assert_eq!(modules[0].0, "long");
    assert_eq!(archive.find("long"), Some(modules[0].1));
}

#[test]
fn modules_sort_by_the_bytes_of_their_names() {
    let sorted = sort_modules(vec![file("b", b""), file("ab", b""), file("a", b""), file("B", b"")]);
    let names: Vec<&str> = sorted.iter().map(|module| module.name.as_str()).collect();
    assert_eq!(names, vec!["B", "a", "ab", "b"]);
}

#[test]
fn a_damaged_module_is_not_found() {
    let mut bytes = empty_archive_bytes();
    bytes[MAGIC_LEN + 1] = 1;
    write_entry(&mut bytes, "bad", b"this is no zstd stream").expect("entry");
    let archive = EmbeddedArchive::parse(&bytes).expect("archive parses");
    assert_eq!(archive.get("bad"), None);
}

#[test]
fn trailing_bytes_and_bad_names_make_an_archive_invalid() {
    let mut bytes = pack_entries(&[("alpha", b"a")]);
    bytes.push(0);
    assert_eq!(EmbeddedArchive::parse(&bytes), Err(EmbedError::InvalidArchive));

    let mut bytes = pack_entries(&[("alpha", b"a")]);
    bytes[HEADER_LEN + 2] = 0xff;
    assert_eq!(EmbeddedArchive::parse(&bytes), Err(EmbedError::InvalidArchive));
}

#[test]
fn archive_errors_say_what_is_wrong() {
    let mut bytes = Vec::new();
    let name = "n".repeat(65_536);
    let error = write_entry(&mut bytes, &name, b"").expect_err("name is too long");
    assert_eq!(
        error,
        EmbedError::ModuleNameTooLong {
            name: name.clone(),
            len: 65_536
        }
    );
    assert!(bytes.is_empty());
    assert_eq!(
        error.describe(),
        format!("embedded module name {name:?} is too long (65536 bytes)")
    );
    assert_eq!(
        EmbedError::InvalidArchive.describe(),
        "invalid embedded BEAM archive"
    );
    assert_eq!(
        EmbedError::Io(failure("NotFound", "gone")).describe(),
        "embedded archive IO error: gone"
    );
    assert_eq!(
        EmbedError::Compression(failure("Other", "bad")).describe(),
        "embedded archive zstd error: bad"
    );
    assert_eq!(
        EmbedError::BeamDataTooLong {
            module: "m\"".to_string(),
            len: 5
        }
        .describe(),
        "embedded module \"m\\\"\" compressed payload is too long (5 bytes)"
    );
    assert_eq!(
        EmbedError::TooManyModules { count: 9 }.describe(),
        "too many embedded modules (9)"
    );
}

fn failure(kind: &str, text: &str) -> IoFailure {
    IoFailure {
        kind: kind.to_string(),
        text: text.to_string(),
    }
}

#[test]
fn io_failures_are_the_same_by_their_kind() {
    assert_eq!(
        EmbedError::Io(failure("NotFound", "a")),
        EmbedError::Io(failure("NotFound", "b"))
    );
    assert_ne!(
        EmbedError::Io(failure("NotFound", "a")),
        EmbedError::Io(failure("Other", "a"))
    );
    assert_ne!(
        EmbedError::Io(failure("NotFound", "a")),
        EmbedError::Compression(failure("NotFound", "a"))
    );
    assert_ne!(
        EmbedError::TooManyModules { count: 1 },
        EmbedError::TooManyModules { count: 2 }
    );
}

#[test]
fn module_files_are_known_by_their_extension() {
    assert_eq!(module_name_of("lists.beam").as_deref(), Some("lists"));
    assert_eq!(module_name_of("a.b.beam").as_deref(), Some("a.b"));
    assert_eq!(module_name_of("\u{e9}.beam").as_deref(), Some("\u{e9}"));
    assert_eq!(module_name_of(".beam"), None);
    assert_eq!(module_name_of("lists.erl"), None);
    assert_eq!(module_name_of("beam"), None);
}
