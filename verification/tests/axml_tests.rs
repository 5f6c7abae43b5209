//! Tests for the binary XML decoder on synthetic manifest documents.

use adb_tool::{find_tag_attribute, parse_package_name, parse_string_pool, read_u16, read_u32, AxmlError};

fn push_u16(buf: &mut Vec<u8>, v: u16) {
    buf.extend_from_slice(&v.to_le_bytes());
}

fn push_u32(buf: &mut Vec<u8>, v: u32) {
    buf.extend_from_slice(&v.to_le_bytes());
}

/// A UTF-8 string pool chunk holding the given strings.
fn utf8_pool(strings: &[&str]) -> Vec<u8> {
    let mut data: Vec<u8> = Vec::new();
    let mut offsets: Vec<u32> = Vec::new();
    for s in strings {
        offsets.push(data.len() as u32);
        data.push(s.chars().count() as u8);
        data.push(s.len() as u8);
        data.extend_from_slice(s.as_bytes());
    }
    pool_chunk(strings.len() as u32, 0x100, &offsets, &data)
}

/// A UTF-16 string pool chunk holding the given strings.
fn utf16_pool(strings: &[&str]) -> Vec<u8> {
    let mut data: Vec<u8> = Vec::new();
    let mut offsets: Vec<u32> = Vec::new();
    for s in strings {
        offsets.push(data.len() as u32);
        let units: Vec<u16> = s.encode_utf16().collect();
        data.extend_from_slice(&(units.len() as u16).to_le_bytes());
        for u in units {
            data.extend_from_slice(&u.to_le_bytes());
        }
    }
    pool_chunk(strings.len() as u32, 0, &offsets, &data)
}

fn pool_chunk(count: u32, flags: u32, offsets: &[u32], data: &[u8]) -> Vec<u8> {
    let strings_start = 28 + 4 * offsets.len() as u32;
    let chunk_size = strings_start + data.len() as u32;
    let mut chunk: Vec<u8> = Vec::new();
    push_u16(&mut chunk, 0x0001); // string pool chunk type
    push_u16(&mut chunk, 28); // header size
    push_u32(&mut chunk, chunk_size);
    push_u32(&mut chunk, count);
    push_u32(&mut chunk, 0); // style count
    push_u32(&mut chunk, flags);
    push_u32(&mut chunk, strings_start);
    push_u32(&mut chunk, 0); // styles start
    for o in offsets {
        push_u32(&mut chunk, *o);
    }
    chunk.extend_from_slice(data);
    chunk
}

/// One attribute slot: name index, raw value index, data type, typed data.
struct Attr {
    name: u32,
    raw: u32,
    data_type: u8,
    data: u32,
}

/// An element-start chunk with the given name index and attributes.
fn element_chunk(name_index: u32, attrs: &[Attr]) -> Vec<u8> {
    let chunk_size = 36 + 20 * attrs.len() as u32;
    let mut chunk: Vec<u8> = Vec::new();
    push_u16(&mut chunk, 0x0102); // element-start chunk type
    push_u16(&mut chunk, 16); // header size
    push_u32(&mut chunk, chunk_size);
    push_u32(&mut chunk, 0); // line number
    push_u32(&mut chunk, 0xffff_ffff); // comment
    push_u32(&mut chunk, 0xffff_ffff); // namespace
    push_u32(&mut chunk, name_index);
    push_u16(&mut chunk, 20); // attribute start
    push_u16(&mut chunk, 20); // attribute size
    push_u16(&mut chunk, attrs.len() as u16);
    push_u16(&mut chunk, 0); // id index
    push_u16(&mut chunk, 0); // class index
    push_u16(&mut chunk, 0); // style index
    for a in attrs {
        push_u32(&mut chunk, 0xffff_ffff); // namespace
        push_u32(&mut chunk, a.name);
        push_u32(&mut chunk, a.raw);
        push_u16(&mut chunk, 8); // typed value size
        chunk.push(0); // res0
        chunk.push(a.data_type);
        push_u32(&mut chunk, a.data);
    }
    chunk
}

fn document(pool: Vec<u8>, elements: Vec<Vec<u8>>) -> Vec<u8> {
    let mut buf: Vec<u8> = Vec::new();
    push_u32(&mut buf, 0x0008_0003); // document magic
    push_u32(&mut buf, 0); // file size, unread
    buf.extend_from_slice(&pool);
    for e in elements {
        buf.extend_from_slice(&e);
    }
    buf
}

#[test]
fn test_utf8_pool_package() {
    let pool = utf8_pool(&["manifest", "package", "com.example.app"]);
    let elem = element_chunk(0, &[Attr { name: 1, raw: 2, data_type: 0, data: 0 }]);
    let buf = document(pool, vec![elem]);
    assert_eq!(parse_package_name(&buf), Ok("com.example.app".to_string()));
}

#[test]
fn test_utf16_pool_package() {
    let pool = utf16_pool(&["manifest", "package", "com.example.app"]);
    let elem = element_chunk(0, &[Attr { name: 1, raw: 2, data_type: 0, data: 0 }]);
    let buf = document(pool, vec![elem]);
    assert_eq!(parse_package_name(&buf), Ok("com.example.app".to_string()));
}

#[test]
fn test_bad_magic_rejected() {
    assert_eq!(parse_package_name(&[]), Err(AxmlError::NotBinaryXml));
    assert_eq!(parse_package_name(&[0x03]), Err(AxmlError::NotBinaryXml));
    assert_eq!(
        parse_package_name(&[0xde, 0xad, 0xbe, 0xef, 0, 0, 0, 0]),
        Err(AxmlError::NotBinaryXml)
    );
    let pool = utf8_pool(&["manifest", "package", "com.example.app"]);
    let elem = element_chunk(0, &[Attr { name: 1, raw: 2, data_type: 0, data: 0 }]);
    let mut buf = document(pool, vec![elem]);
    buf[0] = 0x04;
    assert_eq!(parse_package_name(&buf), Err(AxmlError::NotBinaryXml));
}

#[test]
fn test_wrong_element_name() {
    let pool = utf8_pool(&["activity", "package", "com.example.app"]);
    let elem = element_chunk(0, &[Attr { name: 1, raw: 2, data_type: 0, data: 0 }]);
    let buf = document(pool, vec![elem]);
    assert_eq!(parse_package_name(&buf), Err(AxmlError::ElementNotFound));
}

#[test]
fn test_manifest_without_package_attribute() {
    let pool = utf8_pool(&["manifest", "versionCode", "com.example.app"]);
    let elem = element_chunk(0, &[Attr { name: 1, raw: 2, data_type: 0, data: 0 }]);
    let buf = document(pool, vec![elem]);
    assert_eq!(parse_package_name(&buf), Err(AxmlError::AttributeNotFound));
}

#[test]
fn test_out_of_range_string_offset_degrades_to_empty() {
    let mut data: Vec<u8> = Vec::new();
    data.push(1); // char count
    data.push(1); // byte count
    data.push(b'a');
    // The second offset points far past the end of the buffer.
    let pool = pool_chunk(2, 0x100, &[0, 100_000], &data);
    let buf = document(pool, vec![]);
    let strings = parse_string_pool(&buf, 8).unwrap();
    assert_eq!(strings.len(), 2);
    assert_eq!(strings[0], "a");
    assert_eq!(strings[1], "");
}

#[test]
fn test_decode_is_idempotent() {
    let pool = utf8_pool(&["manifest", "package", "com.example.app"]);
    let elem = element_chunk(0, &[Attr { name: 1, raw: 2, data_type: 0, data: 0 }]);
    let buf = document(pool, vec![elem]);
    let first = parse_package_name(&buf);
    let second = parse_package_name(&buf);
    assert_eq!(first, second);
    let bad = vec![1u8, 2, 3];
    assert_eq!(parse_package_name(&bad), parse_package_name(&bad));
}

#[test]
fn test_typed_value_fallback() {
    // No raw string reference, but a typed value of the string type whose
    // data is a pool index.
    let pool = utf8_pool(&["manifest", "package", "com.example.app"]);
    let elem = element_chunk(0, &[Attr { name: 1, raw: 0xffff_ffff, data_type: 3, data: 2 }]);
    let buf = document(pool, vec![elem]);
    assert_eq!(parse_package_name(&buf), Ok("com.example.app".to_string()));
}

#[test]
fn test_unrecognized_chunks_are_skipped() {
    let pool = utf8_pool(&["manifest", "package", "com.example.app"]);
    // An unknown chunk type between the pool and the element.
    let mut other: Vec<u8> = Vec::new();
    push_u16(&mut other, 0x0100);
    push_u16(&mut other, 8);
    push_u32(&mut other, 12);
    push_u32(&mut other, 0);
    let elem = element_chunk(0, &[Attr { name: 1, raw: 2, data_type: 0, data: 0 }]);
    let buf = document(pool, vec![other, elem]);
    assert_eq!(parse_package_name(&buf), Ok("com.example.app".to_string()));
}

#[test]
fn test_zero_chunk_size_terminates() {
    let pool = utf8_pool(&["manifest", "package", "com.example.app"]);
    // A chunk whose size is zero acts as a terminator.
    let mut zero: Vec<u8> = Vec::new();
    push_u16(&mut zero, 0x0100);
    push_u16(&mut zero, 8);
    push_u32(&mut zero, 0);
    let elem = element_chunk(0, &[Attr { name: 1, raw: 2, data_type: 0, data: 0 }]);
    let buf = document(pool, vec![zero, elem]);
    assert_eq!(parse_package_name(&buf), Err(AxmlError::ElementNotFound));
}

#[test]
fn test_generic_tag_attribute_lookup() {
    // The resolver answers any element/attribute pair, not only
    // manifest/package.
    let pool = utf8_pool(&["application", "label", "My App", "manifest"]);
    let elem = element_chunk(0, &[Attr { name: 1, raw: 2, data_type: 0, data: 0 }]);
    let buf = document(pool, vec![elem]);
    assert_eq!(
        find_tag_attribute(&buf, "application", "label"),
        Ok("My App".to_string())
    );
    assert_eq!(
        find_tag_attribute(&buf, "manifest", "package"),
        Err(AxmlError::ElementNotFound)
    );
    assert_eq!(
        find_tag_attribute(&buf, "application", "package"),
        Err(AxmlError::AttributeNotFound)
    );
}

#[test]
fn test_first_matching_element_wins() {
    // The search stops at the first element with the requested name, even
    // if a later one carries the attribute.
    let pool = utf8_pool(&["manifest", "package", "com.example.app"]);
    let first = element_chunk(0, &[]);
    let second = element_chunk(0, &[Attr { name: 1, raw: 2, data_type: 0, data: 0 }]);
    let buf = document(pool, vec![first, second]);
    assert_eq!(parse_package_name(&buf), Err(AxmlError::AttributeNotFound));
}

#[test]
fn test_attribute_without_usable_value_is_skipped() {
    // A slot that matches by name but has neither a raw string nor a
    // string-typed value does not end the scan.
    let pool = utf8_pool(&["manifest", "package", "com.example.app"]);
    let elem = element_chunk(
        0,
        &[
            Attr { name: 1, raw: 0xffff_ffff, data_type: 0x10, data: 7 },
            Attr { name: 1, raw: 2, data_type: 0, data: 0 },
        ],
    );
    let buf = document(pool, vec![elem]);
    assert_eq!(parse_package_name(&buf), Ok("com.example.app".to_string()));
}

#[test]
fn test_error_messages() {
    assert_eq!(AxmlError::NotBinaryXml.message(), "非二进制 XML 格式");
    assert_eq!(AxmlError::StringPoolMissing.message(), "未找到字符串池");
    assert_eq!(AxmlError::ElementNotFound.message(), "未找到 manifest 元素");
    assert_eq!(
        AxmlError::AttributeNotFound.message(),
        "manifest 元素未找到 package 属性"
    );
}

#[test]
fn test_missing_string_pool() {
    let mut buf: Vec<u8> = Vec::new();
    push_u32(&mut buf, 0x0008_0003);
    push_u32(&mut buf, 0);
    // The first chunk is not a string pool.
    push_u16(&mut buf, 0x0102);
    push_u16(&mut buf, 8);
    push_u32(&mut buf, 8);
    assert_eq!(parse_package_name(&buf), Err(AxmlError::StringPoolMissing));
    // Too short to read the pool header at all.
    assert_eq!(
        parse_package_name(&[0x03, 0x00, 0x08, 0x00, 0, 0, 0, 0]),
        Err(AxmlError::StringPoolMissing)
    );
}

#[test]
fn test_primitive_readers() {
    let d = [0x01u8, 0x02, 0x03, 0x04, 0x05];
    assert_eq!(read_u16(&d, 0), Some(0x0201));
    assert_eq!(read_u16(&d, 3), Some(0x0504));
    assert_eq!(read_u16(&d, 4), None);
    assert_eq!(read_u32(&d, 0), Some(0x0403_0201));
    assert_eq!(read_u32(&d, 1), Some(0x0504_0302));
    assert_eq!(read_u32(&d, 2), None);
    assert_eq!(read_u16(&[], 0), None);
}

#[test]
fn test_two_byte_utf8_length_encoding() {
    // A string longer than 127 bytes uses the two-byte length form.
    let long: String = "a".repeat(200);
    let mut data: Vec<u8> = Vec::new();
    data.push(0x80 | ((200 >> 8) as u8)); // char count, two-byte form
    data.push((200 & 0xff) as u8);
    data.push(0x80 | ((200 >> 8) as u8)); // byte count, two-byte form
    data.push((200 & 0xff) as u8);
    data.extend_from_slice(long.as_bytes());
    let pool = pool_chunk(1, 0x100, &[0], &data);
    let buf = document(pool, vec![]);
    let strings = parse_string_pool(&buf, 8).unwrap();
    assert_eq!(strings[0], long);
}
