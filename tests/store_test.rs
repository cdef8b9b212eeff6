use std::io::Write;

use sangit::codec::{decode, decode_framed, encode, frame, Kind, ObjectError};
use sangit::decimal::{parse_decimal, push_decimal};
use sangit::hex::to_hex_lower;
use sangit::objects::Blob;
use sangit::store::{locate, object_id, open_stored, put_object, ReadOutcome};

fn zlib(bytes: &[u8]) -> Vec<u8> {
    let mut e = flate2::write::ZlibEncoder::new(Vec::new(), flate2::Compression::default());
    e.write_all(bytes).unwrap();
    e.finish().unwrap()
}

fn fetch(id: &str, stored: Option<&[u8]>) -> Result<(Kind, Vec<u8>), ObjectError> {
    locate(id)?;
    match stored {
        Some(bytes) => open_stored(ReadOutcome::Found(bytes.to_vec())),
        None => open_stored(ReadOutcome::Missing),
    }
}

const HELLO_ID: &str = "95d09f2b10159347eece71399a7e2e907ea3df4f";

#[test]
fn hello_world_identifier() {
    assert_eq!(object_id(Kind::Blob, b"hello world"), HELLO_ID);
    let stored = put_object(Kind::Blob, b"hello world");
    assert_eq!(stored.id, HELLO_ID);
    assert_eq!(stored.location.dir, "95");
    assert_eq!(stored.location.file, "d09f2b10159347eece71399a7e2e907ea3df4f");
}

#[test]
fn hello_world_line_identifier() {
    assert_eq!(
        object_id(Kind::Blob, b"hello world\n"),
        "3b18e512dba79e4c8300dd08aeb37f8e728b8dad"
    );
}

#[test]
fn hello_world_retrieved() {
    let stored = put_object(Kind::Blob, b"hello world");
    let got = fetch(&stored.id, Some(&stored.bytes)).unwrap();
    assert_eq!(got, (Kind::Blob, b"hello world".to_vec()));
}

#[test]
fn stored_bytes_are_zlib_of_frame() {
    let stored = put_object(Kind::Blob, b"hello world");
    let mut out = Vec::new();
    std::io::Read::read_to_end(&mut flate2::read::ZlibDecoder::new(&stored.bytes[..]), &mut out)
        .unwrap();
    assert_eq!(out, b"blob 11\0hello world".to_vec());
    assert_ne!(stored.bytes, b"blob 11\0hello world".to_vec());
}

#[test]
fn round_trip_empty() {
    let stored = put_object(Kind::Blob, b"");
    assert_eq!(stored.id, "e69de29bb2d1d6434b8b29ae775ad8c2e48c5391");
    assert_eq!(fetch(&stored.id, Some(&stored.bytes)).unwrap(), (Kind::Blob, vec![]));
}

#[test]
fn round_trip_binary() {
    let content: Vec<u8> = vec![0, 159, 146, 150, 255, 0, 32, 10, 0xc3, 0x28];
    let stored = put_object(Kind::Blob, &content);
    assert_eq!(fetch(&stored.id, Some(&stored.bytes)).unwrap(), (Kind::Blob, content));
}

#[test]
fn round_trip_large() {
    let content: Vec<u8> = (0..100_000u32).map(|i| (i * 7 % 251) as u8).collect();
    let bytes = encode(Kind::Blob, &content);
    assert_eq!(decode(&bytes).unwrap(), (Kind::Blob, content));
}

#[test]
fn put_twice_is_identical() {
    let a = put_object(Kind::Blob, b"same content");
    let b = put_object(Kind::Blob, b"same content");
    assert_eq!(a.id, b.id);
    assert_eq!(a.bytes, b.bytes);
    assert_eq!(a.location.dir, b.location.dir);
    assert_eq!(a.location.file, b.location.file);
    assert_eq!(fetch(&b.id, Some(&a.bytes)).unwrap().1, b"same content".to_vec());
}

#[test]
fn identifier_shape() {
    for content in [&b""[..], b"a", b"hello world", &[0u8, 255, 7][..]] {
        let id = object_id(Kind::Blob, content);
        assert_eq!(id.len(), 40);
        assert!(id.chars().all(|c| c.is_ascii_digit() || ('a'..='f').contains(&c)));
    }
}

#[test]
fn missing_object() {
    let id = "0".repeat(40);
    assert_eq!(fetch(&id, None), Err(ObjectError::ObjectNotFound));
}

#[test]
fn malformed_identifier() {
    assert_eq!(fetch("abc", None), Err(ObjectError::InvalidIdentifier));
    assert_eq!(locate("abc").err(), Some(ObjectError::InvalidIdentifier));
    let bad = format!("{}g", "0".repeat(39));
    assert_eq!(locate(&bad).err(), Some(ObjectError::InvalidIdentifier));
    let long = "0".repeat(41);
    assert_eq!(locate(&long).err(), Some(ObjectError::InvalidIdentifier));
}

#[test]
fn uppercase_identifier_is_well_formed() {
    let loc = locate("3B18E512DBA79E4C8300DD08AEB37F8E728B8DAD").unwrap();
    assert_eq!(loc.dir, "3B");
    assert_eq!(loc.file, "18E512DBA79E4C8300DD08AEB37F8E728B8DAD");
}

#[test]
fn header_without_nul() {
    assert_eq!(decode(&zlib(b"blob 11 hello world")), Err(ObjectError::MalformedHeader));
    assert_eq!(decode(&zlib(b"")), Err(ObjectError::MalformedHeader));
}

#[test]
fn nul_beyond_window() {
    let mut bytes = vec![b'x'; 64];
    bytes.push(0);
    assert_eq!(decode(&zlib(&bytes)), Err(ObjectError::MalformedHeader));
    let mut near = b"blob ".to_vec();
    near.extend(std::iter::repeat(b'0').take(57));
    near.push(b'1');
    near.push(0);
    near.push(b'z');
    assert_eq!(near.len(), 65);
    assert_eq!(decode(&zlib(&near)).unwrap(), (Kind::Blob, b"z".to_vec()));
}

#[test]
fn header_shape_errors() {
    assert_eq!(decode_framed(b"blob11\0abc"), Err(ObjectError::MalformedHeader));
    assert_eq!(decode_framed(b"blob 1 1\0abc"), Err(ObjectError::MalformedHeader));
    assert_eq!(decode_framed(b"blob \0abc"), Err(ObjectError::MalformedHeader));
    assert_eq!(decode_framed(b"blob 1x\0abc"), Err(ObjectError::MalformedHeader));
    assert_eq!(decode_framed(b"blob +1\0abc"), Err(ObjectError::MalformedHeader));
}

#[test]
fn non_ascii_tag_is_malformed() {
    assert_eq!(decode(&zlib(b"\xff 1\0x")), Err(ObjectError::MalformedHeader));
    assert_eq!(decode_framed(b"bl\xc3\xb6b 1\0x"), Err(ObjectError::MalformedHeader));
    assert_eq!(decode_framed(b"\x7f 1\0x"), Err(ObjectError::UnknownKind));
}

#[test]
fn empty_content_stored_as_bare_header() {
    let stored = put_object(Kind::Blob, b"");
    let mut out = Vec::new();
    std::io::Read::read_to_end(&mut flate2::read::ZlibDecoder::new(&stored.bytes[..]), &mut out)
        .unwrap();
    assert_eq!(out, b"blob 0\0".to_vec());
}

#[test]
fn unknown_kind() {
    assert_eq!(decode(&zlib(b"tree 3\0abc")), Err(ObjectError::UnknownKind));
    assert_eq!(decode_framed(b"blobs 3\0abc"), Err(ObjectError::UnknownKind));
    assert_eq!(decode_framed(b" 3\0abc"), Err(ObjectError::UnknownKind));
}

#[test]
fn truncated_content() {
    assert_eq!(decode(&zlib(b"blob 20\0hello")), Err(ObjectError::SizeMismatch));
    assert_eq!(
        decode_framed(b"blob 99999999999999999999999\0x"),
        Err(ObjectError::SizeMismatch)
    );
}

#[test]
fn trailing_bytes_ignored() {
    assert_eq!(decode(&zlib(b"blob 3\0abcdef")).unwrap(), (Kind::Blob, b"abc".to_vec()));
    assert_eq!(decode_framed(b"blob 003\0abc").unwrap(), (Kind::Blob, b"abc".to_vec()));
}

#[test]
fn corrupt_stream() {
    assert_eq!(decode(b"not a zlib stream"), Err(ObjectError::CorruptStream));
    let full = zlib(b"blob 11\0hello world");
    assert_eq!(decode(&full[..full.len() / 2]), Err(ObjectError::CorruptStream));
}

#[test]
fn read_failure_is_io_error() {
    let msg = "objects/3b/18e5: permission denied".to_string();
    assert_eq!(open_stored(ReadOutcome::Failed(msg.clone())), Err(ObjectError::IoError(msg)));
}

#[test]
fn frame_layout() {
    assert_eq!(frame(Kind::Blob, b"hello world"), b"blob 11\0hello world".to_vec());
    assert_eq!(frame(Kind::Blob, b""), b"blob 0\0".to_vec());
}

#[test]
fn decimal_numerals() {
    let mut out = b"n=".to_vec();
    push_decimal(&mut out, 0);
    assert_eq!(out, b"n=0".to_vec());
    let mut out = Vec::new();
    push_decimal(&mut out, 1234567);
    assert_eq!(out, b"1234567".to_vec());
    assert_eq!(parse_decimal(b"x0042y", 1, 5), Some(42));
    assert_eq!(parse_decimal(b"", 0, 0), Some(0));
    assert_eq!(parse_decimal(b"99999999999999999999999", 0, 23), None);
}

#[test]
fn hex_text() {
    assert_eq!(to_hex_lower(&[0x00, 0xab, 0xff, 0x10]), "00abff10");
    assert_eq!(to_hex_lower(&[]), "");
}

#[test]
fn blob_handle() {
    let blob = Kind::to_object(Kind::Blob);
    assert_eq!(blob.kind(), Kind::Blob);
    let stored = blob.serialize(b"hello world");
    assert_eq!(stored.id, HELLO_ID);
    assert_eq!(
        blob.deserialize(ReadOutcome::Found(stored.bytes.clone())).unwrap(),
        b"hello world".to_vec()
    );
    assert_eq!(blob.deserialize(ReadOutcome::Missing), Err(ObjectError::ObjectNotFound));
    let _unused: Blob = Blob {};
}
