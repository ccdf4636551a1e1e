//! Decoders for the RPM header region: the fixed 96-byte lead, the
//! 16-byte section prologue, the fixed-width tag descriptor table, the
//! on-demand tag value decoder, and the assemblers that sequence them.
//!
//! Each executable decoder is specified against a spec-level twin
//! (`spec_parse_*`) that defines, byte for byte, what the wire format
//! means; the twin is the single source of truth for both the produced
//! value and the exact error on every malformed input.

use vstd::prelude::*;
use vstd::slice::{slice_subrange, slice_to_vec};
use vstd::utf8::{decode_utf8, valid_utf8};

use crate::cursor::{
    be_i16_at, be_u16_at, be_u32_at, be_u64_at, find_nul, lemma_find_nul_some, read_be_i16,
    read_be_u16, read_be_u32, read_be_u64, scan_nul, u8_at,
};
use crate::error::{ParseError, RPMFileError};

verus! {

/// Fixed 96-byte identification block at the start of an archive.
///
/// The on-wire name field is 66 bytes, NUL-padded; `name` holds its text
/// up to the first NUL, decoded as UTF-8.
#[derive(Debug, PartialEq, Eq)]
pub struct Lead {
    pub major: u8,
    pub minor: u8,
    pub rpm_type: i16,
    pub archnum: i16,
    pub name: String,
    pub osnum: i16,
    pub signature_type: i16,
}

/// Spec-level value of a `Lead`: the name as its character sequence.
pub struct LeadV {
    pub major: u8,
    pub minor: u8,
    pub rpm_type: i16,
    pub archnum: i16,
    pub name: Seq<char>,
    pub osnum: i16,
    pub signature_type: i16,
}

impl View for Lead {
    type V = LeadV;

    open spec fn view(&self) -> LeadV {
        LeadV {
            major: self.major,
            minor: self.minor,
            rpm_type: self.rpm_type,
            archnum: self.archnum,
            name: self.name@,
            osnum: self.osnum,
            signature_type: self.signature_type,
        }
    }
}

/// The eight decode strategies a 32-bit wire type code can resolve to.
/// Wire codes 6, 8 and 9 all collapse to `String`; 7, 10 and 11 to `Binary`.
#[derive(Debug, Clone, Copy, PartialEq, Eq, Structural)]
pub enum TagType {
    Null,
    Char,
    Int8,
    Int16,
    Int32,
    Int64,
    String,
    Binary,
}

/// Decoded value for one tag: a sequence of scalars or strings, or a raw
/// byte run. The variant always matches the descriptor's `tagtype`.
#[derive(Debug, PartialEq, Eq)]
pub enum TagValue {
    Null,
    Char(Vec<char>),
    Int8(Vec<u8>),
    Int16(Vec<u16>),
    Int32(Vec<u32>),
    Int64(Vec<u64>),
    String(Vec<String>),
    Binary(Vec<u8>),
}

/// Spec-level value of a `TagValue`.
pub enum TagValueV {
    Null,
    Char(Seq<char>),
    Int8(Seq<u8>),
    Int16(Seq<u16>),
    Int32(Seq<u32>),
    Int64(Seq<u64>),
    String(Seq<Seq<char>>),
    Binary(Seq<u8>),
}

impl View for TagValue {
    type V = TagValueV;

    open spec fn view(&self) -> TagValueV {
        match self {
            TagValue::Null => TagValueV::Null,
            TagValue::Char(v) => TagValueV::Char(v@),
            TagValue::Int8(v) => TagValueV::Int8(v@),
            TagValue::Int16(v) => TagValueV::Int16(v@),
            TagValue::Int32(v) => TagValueV::Int32(v@),
            TagValue::Int64(v) => TagValueV::Int64(v@),
            TagValue::String(v) => TagValueV::String(v.deep_view()),
            TagValue::Binary(v) => TagValueV::Binary(v@),
        }
    }
}

/// Section prologue: format version, number of tag entries, and the byte
/// length of the section's store.
#[derive(Debug, Clone, Copy, PartialEq, Eq, Structural)]
pub struct HeaderSectionHeader {
    pub version: u8,
    pub count: u32,
    pub size: u32,
}

/// Descriptor for one metadata value: an opaque tag id, the decode
/// strategy, a byte offset into the section's store, and a count
/// (elements for scalar and string types, bytes for `Binary`).
#[derive(Debug, Clone, Copy, PartialEq, Eq, Structural)]
pub struct TagEntry {
    pub tag: u32,
    pub tagtype: TagType,
    pub offset: u32,
    pub count: u32,
}

/// One complete section: prologue, descriptor table in wire order
/// (length `hdr.count`), and the raw store (length `hdr.size`) that the
/// descriptors' offsets index into.
#[derive(Debug, PartialEq, Eq)]
pub struct HeaderSection {
    pub hdr: HeaderSectionHeader,
    pub tags: Vec<TagEntry>,
    pub store: Vec<u8>,
}

/// Spec-level value of a `HeaderSection`.
pub struct HeaderSectionV {
    pub hdr: HeaderSectionHeader,
    pub tags: Seq<TagEntry>,
    pub store: Seq<u8>,
}

impl View for HeaderSection {
    type V = HeaderSectionV;

    open spec fn view(&self) -> HeaderSectionV {
        HeaderSectionV { hdr: self.hdr, tags: self.tags@, store: self.store@ }
    }
}

/// Relies on std::str::from_utf8: it accepts exactly the byte sequences
/// that vstd's `valid_utf8` describes and yields their `decode_utf8`
/// text; `to_owned` then copies that text unchanged.
#[verifier::external_body]
fn utf8_to_string(bytes: &[u8]) -> (r: Option<String>)
    ensures
        r is Some <==> valid_utf8(bytes@),
        r matches Some(s) ==> s@ == decode_utf8(bytes@),
{
    match std::str::from_utf8(bytes) {
        Ok(s) => Some(s.to_owned()),
        Err(_) => None,
    }
}

/// Classification of a 32-bit wire type code, `None` for codes outside 0..=11.
pub open spec fn spec_tagtype(v: u32) -> Option<TagType> {
    if v == 0 {
        Some(TagType::Null)
    } else if v == 1 {
        Some(TagType::Char)
    } else if v == 2 {
        Some(TagType::Int8)
    } else if v == 3 {
        Some(TagType::Int16)
    } else if v == 4 {
        Some(TagType::Int32)
    } else if v == 5 {
        Some(TagType::Int64)
    } else if v == 6 || v == 8 || v == 9 {
        Some(TagType::String)
    } else if v == 7 || v == 10 || v == 11 {
        Some(TagType::Binary)
    } else {
        None
    }
}

fn u32_to_tagtype(val: u32) -> (r: Result<TagType, &'static str>)
    ensures
        spec_tagtype(val) matches Some(t) ==> r == Ok::<TagType, &'static str>(t),
        spec_tagtype(val) is None ==> r is Err,
{
    match val {
        0 => Ok(TagType::Null),
        1 => Ok(TagType::Char),
        2 => Ok(TagType::Int8),
        3 => Ok(TagType::Int16),
        4 => Ok(TagType::Int32),
        5 => Ok(TagType::Int64),
        6 | 8 | 9 => Ok(TagType::String),
        7 | 10 | 11 => Ok(TagType::Binary),
        _ => Err("unknown tag type"),
    }
}

/// What decoding a lead from `s` yields: the lead's fields read from the
/// fixed 96-byte layout, or the first failure. Truncation is reported
/// field by field: the `Incomplete` need is the end offset of the first
/// field that does not fit, not the 96-byte total.
pub open spec fn spec_parse_lead(s: Seq<u8>) -> Result<LeadV, ParseError> {
    if s.len() < 4 {
        Err(ParseError::Incomplete(4))
    } else if !(s[0] == 0xed && s[1] == 0xab && s[2] == 0xee && s[3] == 0xdb) {
        Err(ParseError::Fail(RPMFileError::BadMagic, 0))
    } else if s.len() < 5 {
        Err(ParseError::Incomplete(5))
    } else if s.len() < 6 {
        Err(ParseError::Incomplete(6))
    } else if s.len() < 8 {
        Err(ParseError::Incomplete(8))
    } else if s.len() < 10 {
        Err(ParseError::Incomplete(10))
    } else if s.len() < 76 {
        Err(ParseError::Incomplete(76))
    } else {
        match find_nul(s, 10, 76) {
            None => Err(ParseError::Fail(RPMFileError::BadHeader, 10)),
            Some(k) => if !valid_utf8(s.subrange(10, k)) {
                Err(ParseError::Fail(RPMFileError::BadHeader, 10))
            } else if s.len() < 78 {
                Err(ParseError::Incomplete(78))
            } else if s.len() < 80 {
                Err(ParseError::Incomplete(80))
            } else if s.len() < 96 {
                Err(ParseError::Incomplete(96))
            } else {
                Ok(
                    LeadV {
                        major: s[4],
                        minor: s[5],
                        rpm_type: be_i16_at(s, 6),
                        archnum: be_i16_at(s, 8),
                        name: decode_utf8(s.subrange(10, k)),
                        osnum: be_i16_at(s, 76),
                        signature_type: be_i16_at(s, 78),
                    },
                )
            },
        }
    }
}

/// Decodes the lead and returns it with the residual slice that starts
/// at byte 96.
pub fn parse_lead<'a>(input: &'a [u8]) -> (r: Result<(Lead, &'a [u8]), ParseError>)
    ensures
        spec_parse_lead(input@) matches Ok(lv) ==> (r matches Ok(p) && p.0@ == lv && p.1@
            == input@.subrange(96, input@.len() as int)),
        spec_parse_lead(input@) matches Err(e) ==> (r matches Err(e2) && e2 == e),
{
    let n = input.len();
    if n < 4 {
        return Err(ParseError::Incomplete(4));
    }
    if !(input[0] == 0xed && input[1] == 0xab && input[2] == 0xee && input[3] == 0xdb) {
        return Err(ParseError::Fail(RPMFileError::BadMagic, 0));
    }
    if n < 5 {
        return Err(ParseError::Incomplete(5));
    }
    if n < 6 {
        return Err(ParseError::Incomplete(6));
    }
    if n < 8 {
        return Err(ParseError::Incomplete(8));
    }
    if n < 10 {
        return Err(ParseError::Incomplete(10));
    }
    if n < 76 {
        return Err(ParseError::Incomplete(76));
    }
    let k = match scan_nul(input, 10, 76) {
        None => {
            return Err(ParseError::Fail(RPMFileError::BadHeader, 10));
        },
        Some(k) => k,
    };
    proof {
        lemma_find_nul_some(input@, 10, 76, k as int);
    }
    let name_bytes = slice_subrange(input, 10, k as usize);
    let name = match utf8_to_string(name_bytes) {
        None => {
            return Err(ParseError::Fail(RPMFileError::BadHeader, 10));
        },
        Some(s) => s,
    };
    if n < 78 {
        return Err(ParseError::Incomplete(78));
    }
    if n < 80 {
        return Err(ParseError::Incomplete(80));
    }
    if n < 96 {
        return Err(ParseError::Incomplete(96));
    }
    let lead = Lead {
        major: u8_at(input, 4),
        minor: u8_at(input, 5),
        rpm_type: read_be_i16(input, 6),
        archnum: read_be_i16(input, 8),
        name,
        osnum: read_be_i16(input, 76),
        signature_type: read_be_i16(input, 78),
    };
    Ok((lead, slice_subrange(input, 96, n)))
}

/// What decoding a section prologue at offset `at` of `s` yields.
/// The layout is: 3-byte magic, version, 4 reserved bytes, entry count,
/// store size, 16 bytes in all.
pub open spec fn spec_parse_section_header(s: Seq<u8>, at: int) -> Result<
    HeaderSectionHeader,
    ParseError,
> {
    if s.len() < at + 3 {
        Err(ParseError::Incomplete((at + 3) as u64))
    } else if !(s[at] == 0x8e && s[at + 1] == 0xad && s[at + 2] == 0xe8) {
        Err(ParseError::Fail(RPMFileError::BadMagic, at as u64))
    } else if s.len() < at + 4 {
        Err(ParseError::Incomplete((at + 4) as u64))
    } else if s.len() < at + 8 {
        Err(ParseError::Incomplete((at + 8) as u64))
    } else if s.len() < at + 12 {
        Err(ParseError::Incomplete((at + 12) as u64))
    } else if s.len() < at + 16 {
        Err(ParseError::Incomplete((at + 16) as u64))
    } else {
        Ok(
            HeaderSectionHeader {
                version: s[at + 3],
                count: be_u32_at(s, at + 8),
                size: be_u32_at(s, at + 12),
            },
        )
    }
}

fn parse_section_header_at(input: &[u8], at: u64) -> (r: Result<HeaderSectionHeader, ParseError>)
    requires
        at + 16 <= u64::MAX,
    ensures
        spec_parse_section_header(input@, at as int) matches Ok(h) ==> r == Ok::<
            HeaderSectionHeader,
            ParseError,
        >(h),
        spec_parse_section_header(input@, at as int) matches Err(e) ==> (r matches Err(e2) && e2
            == e),
{
    let n = input.len() as u64;
    if n < at + 3 {
        return Err(ParseError::Incomplete(at + 3));
    }
    let p = at as usize;
    if !(input[p] == 0x8e && input[p + 1] == 0xad && input[p + 2] == 0xe8) {
        return Err(ParseError::Fail(RPMFileError::BadMagic, at));
    }
    if n < at + 4 {
        return Err(ParseError::Incomplete(at + 4));
    }
    if n < at + 8 {
        return Err(ParseError::Incomplete(at + 8));
    }
    if n < at + 12 {
        return Err(ParseError::Incomplete(at + 12));
    }
    if n < at + 16 {
        return Err(ParseError::Incomplete(at + 16));
    }
    Ok(
        HeaderSectionHeader {
            version: u8_at(input, at + 3),
            count: read_be_u32(input, at + 8),
            size: read_be_u32(input, at + 12),
        },
    )
}

/// Decodes the 16-byte section prologue at the start of `input` and
/// returns it with the residual slice.
pub fn parse_section_header<'a>(input: &'a [u8]) -> (r: Result<
    (HeaderSectionHeader, &'a [u8]),
    ParseError,
>)
    ensures
        spec_parse_section_header(input@, 0) matches Ok(h) ==> (r matches Ok(p) && p.0 == h && p.1@
            == input@.subrange(16, input@.len() as int)),
        spec_parse_section_header(input@, 0) matches Err(e) ==> (r matches Err(e2) && e2 == e),
{
    match parse_section_header_at(input, 0) {
        Ok(h) => Ok((h, slice_subrange(input, 16, input.len()))),
        Err(e) => Err(e),
    }
}

/// What decoding one 16-byte tag descriptor at offset `at` of `s` yields:
/// tag id, type code (classified; an unknown code is a `BadHeader` at the
/// type field's offset), store offset, and count.
pub open spec fn spec_parse_tag_entry(s: Seq<u8>, at: int) -> Result<TagEntry, ParseError> {
    if s.len() < at + 4 {
        Err(ParseError::Incomplete((at + 4) as u64))
    } else if s.len() < at + 8 {
        Err(ParseError::Incomplete((at + 8) as u64))
    } else {
        match spec_tagtype(be_u32_at(s, at + 4)) {
            None => Err(ParseError::Fail(RPMFileError::BadHeader, (at + 4) as u64)),
            Some(tt) => if s.len() < at + 12 {
                Err(ParseError::Incomplete((at + 12) as u64))
            } else if s.len() < at + 16 {
                Err(ParseError::Incomplete((at + 16) as u64))
            } else {
                Ok(
                    TagEntry {
                        tag: be_u32_at(s, at),
                        tagtype: tt,
                        offset: be_u32_at(s, at + 8),
                        count: be_u32_at(s, at + 12),
                    },
                )
            },
        }
    }
}

fn parse_tag_entry_at(input: &[u8], at: u64) -> (r: Result<TagEntry, ParseError>)
    requires
        at + 16 <= u64::MAX,
    ensures
        spec_parse_tag_entry(input@, at as int) matches Ok(t) ==> r == Ok::<TagEntry, ParseError>(
            t,
        ),
        spec_parse_tag_entry(input@, at as int) matches Err(e) ==> (r matches Err(e2) && e2 == e),
{
    let n = input.len() as u64;
    if n < at + 4 {
        return Err(ParseError::Incomplete(at + 4));
    }
    if n < at + 8 {
        return Err(ParseError::Incomplete(at + 8));
    }
    let tt = match u32_to_tagtype(read_be_u32(input, at + 4)) {
        Err(_) => {
            return Err(ParseError::Fail(RPMFileError::BadHeader, at + 4));
        },
        Ok(tt) => tt,
    };
    if n < at + 12 {
        return Err(ParseError::Incomplete(at + 12));
    }
    if n < at + 16 {
        return Err(ParseError::Incomplete(at + 16));
    }
    Ok(
        TagEntry {
            tag: read_be_u32(input, at),
            tagtype: tt,
            offset: read_be_u32(input, at + 8),
            count: read_be_u32(input, at + 12),
        },
    )
}

/// Decodes one 16-byte tag descriptor at the start of `input` and
/// returns it with the residual slice.
pub fn parse_tag_entry<'a>(input: &'a [u8]) -> (r: Result<(TagEntry, &'a [u8]), ParseError>)
    ensures
        spec_parse_tag_entry(input@, 0) matches Ok(t) ==> (r matches Ok(p) && p.0 == t && p.1@
            == input@.subrange(16, input@.len() as int)),
        spec_parse_tag_entry(input@, 0) matches Err(e) ==> (r matches Err(e2) && e2 == e),
{
    match parse_tag_entry_at(input, 0) {
        Ok(t) => Ok((t, slice_subrange(input, 16, input.len()))),
        Err(e) => Err(e),
    }
}

/// What decoding `n` consecutive 16-byte tag descriptors starting at
/// offset `at` of `s` yields: the descriptors in wire order, or the first
/// failure. One bad descriptor fails the whole batch; the error keeps the
/// offset of the failing field.
pub open spec fn spec_parse_entries(s: Seq<u8>, at: int, n: int) -> Result<Seq<TagEntry>, ParseError>
    decreases n,
{
    if n <= 0 {
        Ok(Seq::empty())
    } else {
        match spec_parse_tag_entry(s, at) {
            Err(e) => Err(e),
            Ok(t) => match spec_parse_entries(s, at + 16, n - 1) {
                Err(e) => Err(e),
                Ok(rest) => Ok(seq![t] + rest),
            },
        }
    }
}

#[verifier::loop_isolation(false)]
fn parse_entries(input: &[u8], at: u64, count: u32) -> (r: Result<Vec<TagEntry>, ParseError>)
    requires
        at + 16 * (count as int) + 16 <= u64::MAX,
    ensures
        spec_parse_entries(input@, at as int, count as int) matches Ok(ts) ==> (r matches Ok(v)
            && v@ == ts),
        spec_parse_entries(input@, at as int, count as int) matches Err(e) ==> (r matches Err(e2)
            && e2 == e),
{
    let mut tags: Vec<TagEntry> = Vec::new();
    let mut i: u32 = 0;
    proof {
        match spec_parse_entries(input@, at as int, count as int) {
            Ok(rest) => {
                assert(Seq::<TagEntry>::empty() + rest =~= rest);
            },
            Err(_) => {},
        }
    }
    while i < count
        invariant
            i <= count,
            at + 16 * (count as int) + 16 <= u64::MAX,
            tags@.len() == i as int,
            match spec_parse_entries(input@, at + 16 * (i as int), count as int - i as int) {
                Ok(rest) => spec_parse_entries(input@, at as int, count as int) == Ok::<
                    Seq<TagEntry>,
                    ParseError,
                >(tags@ + rest),
                Err(e) => spec_parse_entries(input@, at as int, count as int) == Err::<
                    Seq<TagEntry>,
                    ParseError,
                >(e),
            },
        decreases count - i,
    {
        let pos = at + 16 * (i as u64);
        match parse_tag_entry_at(input, pos) {
            Err(e) => {
                return Err(e);
            },
            Ok(t) => {
                let ghost tags0 = tags@;
                tags.push(t);
                proof {
                    assert(tags@ =~= tags0 + seq![t]);
                    match spec_parse_entries(input@, pos + 16, count as int - i as int - 1) {
                        Ok(rest2) => {
                            assert(tags0 + (seq![t] + rest2) =~= (tags0 + seq![t]) + rest2);
                        },
                        Err(_) => {},
                    }
                }
                i = i + 1;
            },
        }
    }
    proof {
        assert(tags@ + Seq::<TagEntry>::empty() =~= tags@);
    }
    Ok(tags)
}

/// Byte length of a whole section with prologue `h`: the 16-byte
/// prologue, `h.count` descriptors of 16 bytes, and the `h.size`-byte store.
pub open spec fn spec_section_len(h: HeaderSectionHeader) -> int {
    16 + 16 * (h.count as int) + (h.size as int)
}

/// What decoding a whole section at offset `at` of `s` yields: the
/// prologue, then exactly `count` descriptors, then exactly `size` bytes
/// of store. No tag value is decoded here.
pub open spec fn spec_parse_section(s: Seq<u8>, at: int) -> Result<HeaderSectionV, ParseError> {
    match spec_parse_section_header(s, at) {
        Err(e) => Err(e),
        Ok(h) => match spec_parse_entries(s, at + 16, h.count as int) {
            Err(e) => Err(e),
            Ok(tags) => if s.len() < at + spec_section_len(h) {
                Err(ParseError::Incomplete((at + spec_section_len(h)) as u64))
            } else {
                Ok(
                    HeaderSectionV {
                        hdr: h,
                        tags: tags,
                        store: s.subrange(at + 16 + 16 * (h.count as int), at + spec_section_len(h)),
                    },
                )
            },
        },
    }
}

fn parse_section_at(input: &[u8], at: u64) -> (r: Result<(HeaderSection, u64), ParseError>)
    requires
        at <= 0x1000_0000_0000,
    ensures
        spec_parse_section(input@, at as int) matches Ok(sv) ==> (r matches Ok(p) && p.0@ == sv
            && p.1 == at + spec_section_len(sv.hdr)),
        spec_parse_section(input@, at as int) matches Err(e) ==> (r matches Err(e2) && e2 == e),
{
    let h = match parse_section_header_at(input, at) {
        Err(e) => {
            return Err(e);
        },
        Ok(h) => h,
    };
    let tags = match parse_entries(input, at + 16, h.count) {
        Err(e) => {
            return Err(e);
        },
        Ok(t) => t,
    };
    let store_at = at + 16 + 16 * (h.count as u64);
    let end = store_at + (h.size as u64);
    if (input.len() as u64) < end {
        return Err(ParseError::Incomplete(end));
    }
    let store = slice_to_vec(slice_subrange(input, store_at as usize, end as usize));
    Ok((HeaderSection { hdr: h, tags, store }, end))
}

/// Decodes one whole section at the start of `input` and returns it with
/// the residual slice. Tag values are left in the store, to be decoded on
/// demand with `parse_tagval`.
pub fn parse_section<'a>(input: &'a [u8]) -> (r: Result<(HeaderSection, &'a [u8]), ParseError>)
    ensures
        spec_parse_section(input@, 0) matches Ok(sv) ==> (r matches Ok(p) && p.0@ == sv && p.1@
            == input@.subrange(spec_section_len(sv.hdr), input@.len() as int)),
        spec_parse_section(input@, 0) matches Err(e) ==> (r matches Err(e2) && e2 == e),
{
    match parse_section_at(input, 0) {
        Err(e) => Err(e),
        Ok((sec, end)) => Ok((sec, slice_subrange(input, end as usize, input.len()))),
    }
}

/// What decoding `n` consecutive NUL-terminated strings starting at
/// offset `at` of a store yields. Each string is the bytes up to its
/// terminator, decoded as UTF-8; the next string starts right after the
/// terminator. A string with no terminator left in the store, or one
/// that is not UTF-8, is a `BadHeader` at the offset where it begins.
pub open spec fn spec_read_strings(store: Seq<u8>, at: int, n: int) -> Result<
    Seq<Seq<char>>,
    ParseError,
>
    decreases n,
{
    if n <= 0 {
        Ok(Seq::empty())
    } else {
        match find_nul(store, at, store.len() as int) {
            None => Err(ParseError::Fail(RPMFileError::BadHeader, at as u64)),
            Some(k) => if !valid_utf8(store.subrange(at, k)) {
                Err(ParseError::Fail(RPMFileError::BadHeader, at as u64))
            } else {
                match spec_read_strings(store, k + 1, n - 1) {
                    Err(e) => Err(e),
                    Ok(rest) => Ok(seq![decode_utf8(store.subrange(at, k))] + rest),
                }
            },
        }
    }
}

/// What resolving one descriptor against a store yields: the typed value
/// read at `tag.offset`, or a structural failure. For scalar and string
/// types `tag.count` is an element count; for `Binary` it is a byte
/// length. A read that would pass the end of the store is a `BadHeader`.
pub open spec fn spec_parse_tagval(store: Seq<u8>, tag: TagEntry) -> Result<TagValueV, ParseError> {
    let off = tag.offset as int;
    let cnt = tag.count as int;
    match tag.tagtype {
        TagType::Null => Ok(TagValueV::Null),
        TagType::Char => if store.len() < off + cnt {
            Err(ParseError::Fail(RPMFileError::BadHeader, tag.offset as u64))
        } else {
            Ok(TagValueV::Char(Seq::new(cnt as nat, |i: int| store[off + i] as char)))
        },
        TagType::Int8 => if store.len() < off + cnt {
            Err(ParseError::Fail(RPMFileError::BadHeader, tag.offset as u64))
        } else {
            Ok(TagValueV::Int8(store.subrange(off, off + cnt)))
        },
        TagType::Int16 => if store.len() < off + 2 * cnt {
            Err(ParseError::Fail(RPMFileError::BadHeader, tag.offset as u64))
        } else {
            Ok(TagValueV::Int16(Seq::new(cnt as nat, |i: int| be_u16_at(store, off + 2 * i))))
        },
        TagType::Int32 => if store.len() < off + 4 * cnt {
            Err(ParseError::Fail(RPMFileError::BadHeader, tag.offset as u64))
        } else {
            Ok(TagValueV::Int32(Seq::new(cnt as nat, |i: int| be_u32_at(store, off + 4 * i))))
        },
        TagType::Int64 => if store.len() < off + 8 * cnt {
            Err(ParseError::Fail(RPMFileError::BadHeader, tag.offset as u64))
        } else {
            Ok(TagValueV::Int64(Seq::new(cnt as nat, |i: int| be_u64_at(store, off + 8 * i))))
        },
        TagType::String => match spec_read_strings(store, off, cnt) {
            Err(e) => Err(e),
            Ok(v) => Ok(TagValueV::String(v)),
        },
        TagType::Binary => if store.len() < off + cnt {
            Err(ParseError::Fail(RPMFileError::BadHeader, tag.offset as u64))
        } else {
            Ok(TagValueV::Binary(store.subrange(off, off + cnt)))
        },
    }
}

/// Resolves one descriptor against a section's store, without touching
/// any other descriptor. The offset indexes the store, not the whole
/// input; the store is only read, so any number of descriptors can be
/// resolved against it independently and in any order.
#[verifier::loop_isolation(false)]
pub fn parse_tagval(store: &[u8], tag: &TagEntry) -> (r: Result<TagValue, ParseError>)
    ensures
        spec_parse_tagval(store@, *tag) matches Ok(v) ==> (r matches Ok(tv) && tv@ == v),
        spec_parse_tagval(store@, *tag) matches Err(e) ==> (r matches Err(e2) && e2 == e),
{
    let off = tag.offset as u64;
    let cnt = tag.count as u64;
    let n = store.len();
    match tag.tagtype {
        TagType::Null => Ok(TagValue::Null),
        TagType::Char => {
            if (n as u64) < off + cnt {
                return Err(ParseError::Fail(RPMFileError::BadHeader, off));
            }
            let mut v: Vec<char> = Vec::new();
            let mut i: u64 = 0;
            while i < cnt
                invariant
                    i <= cnt,
                    off + cnt <= store@.len(),
                    v@.len() == i as int,
                    forall|j: int|
                        0 <= j < i as int ==> v@[j] == store@[tag.offset as int + j] as char,
                decreases cnt - i,
            {
                v.push(store[(off + i) as usize] as char);
                i = i + 1;
            }
            proof {
                assert(v@ =~= Seq::new(
                    tag.count as nat,
                    |j: int| store@[tag.offset as int + j] as char,
                ));
            }
            Ok(TagValue::Char(v))
        },
        TagType::Int8 => {
            if (n as u64) < off + cnt {
                return Err(ParseError::Fail(RPMFileError::BadHeader, off));
            }
            let v = slice_to_vec(slice_subrange(store, off as usize, (off + cnt) as usize));
            Ok(TagValue::Int8(v))
        },
        TagType::Int16 => {
            if (n as u64) < off + 2 * cnt {
                return Err(ParseError::Fail(RPMFileError::BadHeader, off));
            }
            let mut v: Vec<u16> = Vec::new();
            let mut i: u64 = 0;
            while i < cnt
                invariant
                    i <= cnt,
                    off + 2 * cnt <= store@.len(),
                    v@.len() == i as int,
                    forall|j: int|
                        0 <= j < i as int ==> v@[j] == be_u16_at(store@, tag.offset as int + 2 * j),
                decreases cnt - i,
            {
                v.push(read_be_u16(store, off + 2 * i));
                i = i + 1;
            }
            proof {
                assert(v@ =~= Seq::new(
                    tag.count as nat,
                    |j: int| be_u16_at(store@, tag.offset as int + 2 * j),
                ));
            }
            Ok(TagValue::Int16(v))
        },
        TagType::Int32 => {
            if (n as u64) < off + 4 * cnt {
                return Err(ParseError::Fail(RPMFileError::BadHeader, off));
            }
            let mut v: Vec<u32> = Vec::new();
            let mut i: u64 = 0;
            while i < cnt
                invariant
                    i <= cnt,
                    off + 4 * cnt <= store@.len(),
                    v@.len() == i as int,
                    forall|j: int|
                        0 <= j < i as int ==> v@[j] == be_u32_at(store@, tag.offset as int + 4 * j),
                decreases cnt - i,
            {
                v.push(read_be_u32(store, off + 4 * i));
                i = i + 1;
            }
            proof {
                assert(v@ =~= Seq::new(
                    tag.count as nat,
                    |j: int| be_u32_at(store@, tag.offset as int + 4 * j),
                ));
            }
            Ok(TagValue::Int32(v))
        },
        TagType::Int64 => {
            if (n as u64) < off + 8 * cnt {
                return Err(ParseError::Fail(RPMFileError::BadHeader, off));
            }
            let mut v: Vec<u64> = Vec::new();
            let mut i: u64 = 0;
            while i < cnt
                invariant
                    i <= cnt,
                    off + 8 * cnt <= store@.len(),
                    v@.len() == i as int,
                    forall|j: int|
                        0 <= j < i as int ==> v@[j] == be_u64_at(store@, tag.offset as int + 8 * j),
                decreases cnt - i,
            {
                v.push(read_be_u64(store, off + 8 * i));
                i = i + 1;
            }
            proof {
                assert(v@ =~= Seq::new(
                    tag.count as nat,
                    |j: int| be_u64_at(store@, tag.offset as int + 8 * j),
                ));
            }
            Ok(TagValue::Int64(v))
        },
        TagType::String => {
            let mut v: Vec<String> = Vec::new();
            let mut pos: u64 = off;
            let mut i: u64 = 0;
            proof {
                match spec_read_strings(store@, pos as int, cnt as int) {
                    Ok(rest) => {
                        assert(Seq::<Seq<char>>::empty() + rest =~= rest);
                        assert(v.deep_view() =~= Seq::<Seq<char>>::empty());
                    },
                    Err(_) => {},
                }
            }
            while i < cnt
                invariant
                    i <= cnt,
                    n == store@.len(),
                    match spec_read_strings(store@, pos as int, cnt as int - i as int) {
                        Ok(rest) => spec_read_strings(store@, tag.offset as int, cnt as int) == Ok::<
                            Seq<Seq<char>>,
                            ParseError,
                        >(v.deep_view() + rest),
                        Err(e) => spec_read_strings(store@, tag.offset as int, cnt as int) == Err::<
                            Seq<Seq<char>>,
                            ParseError,
                        >(e),
                    },
                decreases cnt - i,
            {
                let k = match scan_nul(store, pos, n as u64) {
                    None => {
                        return Err(ParseError::Fail(RPMFileError::BadHeader, pos));
                    },
                    Some(k) => k,
                };
                proof {
                    lemma_find_nul_some(store@, pos as int, n as int, k as int);
                }
                let sb = slice_subrange(store, pos as usize, k as usize);
                let st = match utf8_to_string(sb) {
                    None => {
                        return Err(ParseError::Fail(RPMFileError::BadHeader, pos));
                    },
                    Some(s) => s,
                };
                let ghost v0 = v.deep_view();
                v.push(st);
                proof {
                    assert(v.deep_view() =~= v0 + seq![st@]);
                    match spec_read_strings(store@, k as int + 1, cnt as int - i as int - 1) {
                        Ok(rest2) => {
                            assert(v0 + (seq![st@] + rest2) =~= (v0 + seq![st@]) + rest2);
                        },
                        Err(_) => {},
                    }
                }
                pos = k + 1;
                i = i + 1;
            }
            proof {
                assert(v.deep_view() + Seq::<Seq<char>>::empty() =~= v.deep_view());
            }
            Ok(TagValue::String(v))
        },
        TagType::Binary => {
            if (n as u64) < off + cnt {
                return Err(ParseError::Fail(RPMFileError::BadHeader, off));
            }
            let v = slice_to_vec(slice_subrange(store, off as usize, (off + cnt) as usize));
            Ok(TagValue::Binary(v))
        },
    }
}

/// Padding between the end of the signature section's store and the
/// header section, aligning the latter to an 8-byte boundary.
pub open spec fn spec_pad(size: u32) -> int {
    if (size as int) % 8 != 0 {
        8 - (size as int) % 8
    } else {
        0
    }
}

/// What decoding the whole header region of `s` yields: the lead, the
/// signature section at byte 96, the alignment padding skip, and the
/// header section — or the first failure, with its offset into `s`.
pub open spec fn spec_parse_header(s: Seq<u8>) -> Result<
    (LeadV, HeaderSectionV, HeaderSectionV),
    ParseError,
> {
    match spec_parse_lead(s) {
        Err(e) => Err(e),
        Ok(lv) => match spec_parse_section(s, 96) {
            Err(e) => Err(e),
            Ok(sig) => {
                let hat = 96 + spec_section_len(sig.hdr) + spec_pad(sig.hdr.size);
                if s.len() < hat {
                    Err(ParseError::Incomplete(hat as u64))
                } else {
                    match spec_parse_section(s, hat) {
                        Err(e) => Err(e),
                        Ok(hdr) => Ok((lv, sig, hdr)),
                    }
                }
            },
        },
    }
}

/// Offset of the first residual byte after a decoded header region: the
/// start of the archive payload.
pub open spec fn spec_header_len(sig: HeaderSectionHeader, hdr: HeaderSectionHeader) -> int {
    96 + spec_section_len(sig) + spec_pad(sig.size) + spec_section_len(hdr)
}

/// Decodes the entire header region: lead, signature section, alignment
/// padding, header section. Returns the three decoded parts and the
/// residual slice, which is the start of the payload.
pub fn parse_header<'a>(input: &'a [u8]) -> (r: Result<
    (Lead, HeaderSection, HeaderSection, &'a [u8]),
    ParseError,
>)
    ensures
        spec_parse_header(input@) matches Ok(t) ==> (r matches Ok(q) && q.0@ == t.0 && q.1@ == t.1
            && q.2@ == t.2 && q.3@ == input@.subrange(
            spec_header_len(t.1.hdr, t.2.hdr),
            input@.len() as int,
        )),
        spec_parse_header(input@) matches Err(e) ==> (r matches Err(e2) && e2 == e),
{
    let lead = match parse_lead(input) {
        Err(e) => {
            return Err(e);
        },
        Ok(p) => p.0,
    };
    let (sig, end1) = match parse_section_at(input, 96) {
        Err(e) => {
            return Err(e);
        },
        Ok(p) => p,
    };
    let size = sig.hdr.size;
    let pad: u64 = if size % 8 != 0 {
        (8 - size % 8) as u64
    } else {
        0
    };
    let hat = end1 + pad;
    if (input.len() as u64) < hat {
        return Err(ParseError::Incomplete(hat));
    }
    let (hdr, end2) = match parse_section_at(input, hat) {
        Err(e) => {
            return Err(e);
        },
        Ok(p) => p,
    };
    Ok((lead, sig, hdr, slice_subrange(input, end2 as usize, input.len())))
}

proof fn lemma_entries_len(s: Seq<u8>, at: int, n: int)
    requires
        n >= 0,
    ensures
        spec_parse_entries(s, at, n) matches Ok(ts) ==> ts.len() == n,
    decreases n,
{
    if n > 0 {
        match spec_parse_tag_entry(s, at) {
            Ok(_) => {
                lemma_entries_len(s, at + 16, n - 1);
            },
            Err(_) => {},
        }
    }
}

/// A decoded section is well formed: its descriptor table has exactly
/// the number of entries its prologue declares, and its store has
/// exactly the declared byte length.
pub proof fn lemma_section_well_formed(s: Seq<u8>, at: int, sec: HeaderSectionV)
    requires
        0 <= at,
        spec_parse_section(s, at) == Ok::<HeaderSectionV, ParseError>(sec),
    ensures
        sec.tags.len() == sec.hdr.count,
        sec.store.len() == sec.hdr.size,
{
    match spec_parse_section_header(s, at) {
        Ok(h) => {
            lemma_entries_len(s, at + 16, h.count as int);
            match spec_parse_entries(s, at + 16, h.count as int) {
                Ok(_) => {
                    assert(sec.store == s.subrange(
                        at + 16 + 16 * (h.count as int),
                        at + spec_section_len(h),
                    ));
                },
                Err(_) => {},
            }
        },
        Err(_) => {},
    }
}

/// Lead decoding is deterministic: one byte sequence admits one lead
/// value, so decoding the same bytes twice yields identical results.
pub proof fn lemma_parse_lead_deterministic(s: Seq<u8>, l1: LeadV, l2: LeadV)
    requires
        spec_parse_lead(s) == Ok::<LeadV, ParseError>(l1),
        spec_parse_lead(s) == Ok::<LeadV, ParseError>(l2),
    ensures
        l1 == l2,
{
}

proof fn lemma_read_strings_structural(store: Seq<u8>, at: int, n: int)
    ensures
        spec_read_strings(store, at, n) matches Err(e) ==> e matches ParseError::Fail(
            RPMFileError::BadHeader,
            _,
        ),
    decreases n,
{
    if n > 0 {
        match find_nul(store, at, store.len() as int) {
            Some(k) => {
                lemma_read_strings_structural(store, k + 1, n - 1);
            },
            None => {},
        }
    }
}

/// Tag-value decoding is total over adversarial input: whatever the store
/// holds and whatever the descriptor declares, the decoder yields either
/// a value or a structural `BadHeader` failure — never `Incomplete`, and
/// (being verified free of preconditions) never a panic or an
/// out-of-bounds read.
pub proof fn lemma_parse_tagval_total(store: Seq<u8>, tag: TagEntry)
    ensures
        spec_parse_tagval(store, tag) matches Err(e) ==> e matches ParseError::Fail(
            RPMFileError::BadHeader,
            _,
        ),
{
    match tag.tagtype {
        TagType::String => {
            lemma_read_strings_structural(store, tag.offset as int, tag.count as int);
        },
        _ => {},
    }
}

} // verus!

