//! Decoder tests over a hand-built archive image: a lead naming
//! "hardlink-1:1.0-23.fc24", a signature section with eight entries and a
//! 0x1484-byte store, four bytes of alignment padding, a header section
//! with 0x3e entries and a 0x17d2-byte store, then the start of an XZ
//! payload.

use rpmheader::error::{ParseError, RPMFileError};
use rpmheader::parser::{
    parse_header, parse_lead, parse_section_header, parse_tag_entry, parse_tagval,
    HeaderSectionHeader, Lead, TagEntry, TagType, TagValue,
};

fn push_u32(v: &mut Vec<u8>, x: u32) {
    v.push((x >> 24) as u8);
    v.push((x >> 16) as u8);
    v.push((x >> 8) as u8);
    v.push(x as u8);
}

fn push_i16(v: &mut Vec<u8>, x: i16) {
    let u: u16 = x as u16;
    v.push((u >> 8) as u8);
    v.push(u as u8);
}

fn push_entry(v: &mut Vec<u8>, tag: u32, typ: u32, offset: u32, count: u32) {
    push_u32(v, tag);
    push_u32(v, typ);
    push_u32(v, offset);
    push_u32(v, count);
}

fn sample_archive() -> Vec<u8> {
    let mut v: Vec<u8> = Vec::new();
    // lead
    v.push(0xed);
    v.push(0xab);
    v.push(0xee);
    v.push(0xdb);
    v.push(3);
    v.push(0);
    push_i16(&mut v, 0); // binary package
    push_i16(&mut v, 1);
    let name: &[u8] = b"hardlink-1:1.0-23.fc24";
    for b in name {
        v.push(*b);
    }
    for _ in 0..(66 - name.len()) {
        v.push(0);
    }
    push_i16(&mut v, 1);
    push_i16(&mut v, 5);
    for _ in 0..16 {
        v.push(0);
    }
    assert_eq!(v.len(), 0x60);
    // signature section: prologue, eight descriptors, 0x1484-byte store
    v.push(0x8e);
    v.push(0xad);
    v.push(0xe8);
    v.push(1);
    push_u32(&mut v, 0);
    push_u32(&mut v, 8);
    push_u32(&mut v, 0x1484);
    push_entry(&mut v, 0x03e, 7, 0x1474, 0x10);
    push_entry(&mut v, 0x10c, 7, 0x0000, 0x218);
    push_entry(&mut v, 0x10d, 6, 0x0218, 0x1);
    push_entry(&mut v, 0x3e8, 4, 0x0244, 0x1);
    push_entry(&mut v, 0x3ea, 7, 0x0248, 0x218);
    push_entry(&mut v, 0x3ec, 7, 0x0460, 0x10);
    push_entry(&mut v, 0x3ef, 4, 0x0470, 0x1);
    push_entry(&mut v, 0x3f0, 7, 0x0474, 0x1000);
    for _ in 0..0x1484 {
        v.push(0);
    }
    assert_eq!(v.len(), 0x1574);
    // alignment padding: the store size 0x1484 is 4 short of a multiple of 8
    for _ in 0..4 {
        v.push(0);
    }
    // header section: prologue, 0x3e descriptors, 0x17d2-byte store
    v.push(0x8e);
    v.push(0xad);
    v.push(0xe8);
    v.push(1);
    push_u32(&mut v, 0);
    push_u32(&mut v, 0x3e);
    push_u32(&mut v, 0x17d2);
    push_entry(&mut v, 0x3e8, 6, 0x0002, 1); // package name, a string at offset 2
    for i in 1u32..0x3e {
        push_entry(&mut v, 1000 + i, 0, 0, 0);
    }
    assert_eq!(v.len(), 0x1968);
    v.push(0);
    v.push(0);
    for b in b"hardlink\0" {
        v.push(*b);
    }
    for _ in 0..(0x17d2 - 11) {
        v.push(0);
    }
    assert_eq!(v.len(), 0x313a);
    // start of the XZ payload
    v.push(0xfd);
    v.push(0x37);
    v.push(0x7a);
    v.push(0x58);
    v.push(0x5a);
    v.push(0x00);
    v
}

#[test]
fn parse_lead_bad_magic() {
    let bytes = [0u8; 0x60];
    assert_eq!(
        parse_lead(&bytes),
        Err(ParseError::Fail(RPMFileError::BadMagic, 0))
    )
}

#[test]
fn parse_lead_empty() {
    let bytes = b"";
    assert_eq!(parse_lead(bytes), Err(ParseError::Incomplete(4)))
}

#[test]
fn parse_lead_short() {
    let bytes = b"\xED\xAB\xEE\xDB\x03\x00";
    // the decoder reports the end of the first field that does not fit
    assert_eq!(parse_lead(bytes), Err(ParseError::Incomplete(8)))
}

#[test]
fn parse_lead_ok() {
    let archive = sample_archive();
    let bytes = &archive[..0x60];
    assert_eq!(
        parse_lead(bytes),
        Ok((
            Lead {
                major: 3,
                minor: 0,
                rpm_type: 0,
                archnum: 1,
                name: String::from("hardlink-1:1.0-23.fc24"),
                osnum: 1,
                signature_type: 5,
            },
            &b""[..]
        ))
    )
}

#[test]
fn parse_section_header_ok() {
    let archive = sample_archive();
    let bytes = &archive[0x60..0x70];
    assert_eq!(
        parse_section_header(bytes),
        Ok((
            HeaderSectionHeader {
                version: 1,
                count: 8,
                size: 0x1484,
            },
            &b""[..]
        ))
    )
}

#[test]
fn parse_tag_entry_ok() {
    let archive = sample_archive();
    let bytes = &archive[0x70..0x80];
    assert_eq!(
        parse_tag_entry(bytes),
        Ok((
            TagEntry {
                tag: 0x3e,
                tagtype: TagType::Binary,
                offset: 0x1474,
                count: 0x10,
            },
            &b""[..]
        ))
    )
}

#[test]
fn parse_tag_entry_bad_tagtype() {
    let bytes = b"\0\0\0\xAA\0\0\0\xBB\0\0\0\xCC\0\0\0\xDD";
    // the unknown type code fails the record at the type field's offset
    assert_eq!(
        parse_tag_entry(bytes),
        Err(ParseError::Fail(RPMFileError::BadHeader, 4))
    )
}

#[test]
fn parse_tagval_str() {
    let archive = sample_archive();
    let store = &archive[0x1968..0x313a];
    let tag = TagEntry {
        tag: 0x03e8,
        tagtype: TagType::String,
        offset: 0x0002,
        count: 1,
    };
    assert_eq!(
        parse_tagval(store, &tag),
        Ok(TagValue::String(vec![String::from("hardlink")]))
    )
}

#[test]
fn parse_full_header_ok() {
    let archive = sample_archive();
    let (lead, sig, hdr, rest) = parse_header(&archive).unwrap();
    assert_eq!(rest[..4], b"\xfd7zX"[..]); // XZ magic at the payload start
    assert_eq!(lead.name, "hardlink-1:1.0-23.fc24");
    assert_eq!(
        sig.tags,
        vec![
            TagEntry { tag: 0x03e, tagtype: TagType::Binary, offset: 0x1474, count: 0x10 },
            TagEntry { tag: 0x10c, tagtype: TagType::Binary, offset: 0x0000, count: 0x218 },
            TagEntry { tag: 0x10d, tagtype: TagType::String, offset: 0x0218, count: 0x1 },
            TagEntry { tag: 0x3e8, tagtype: TagType::Int32, offset: 0x0244, count: 0x1 },
            TagEntry { tag: 0x3ea, tagtype: TagType::Binary, offset: 0x0248, count: 0x218 },
            TagEntry { tag: 0x3ec, tagtype: TagType::Binary, offset: 0x0460, count: 0x10 },
            TagEntry { tag: 0x3ef, tagtype: TagType::Int32, offset: 0x0470, count: 0x1 },
            TagEntry { tag: 0x3f0, tagtype: TagType::Binary, offset: 0x0474, count: 0x1000 },
        ]
    );
    assert_eq!(hdr.hdr.count, 0x3e)
}
