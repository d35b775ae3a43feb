use audiotag::id3v2::encoding::TextEncoding;
use audiotag::id3v2::frame::{ExtendedUrlFrame, Frame};
use audiotag::id3v2::header::{Id3v2Header, Id3v2Version};
use audiotag::id3v2::read::parse_id3v2;
use audiotag::id3v2::synch::{synchsafe_u28, unsynch_decode, unsynch_encode};
use audiotag::id3v2::tag::Id3v2Tag;
use audiotag::{ParsingMode, TagError};
use std::collections::hash_map::DefaultHasher;
use std::hash::{Hash, Hasher};

fn synchsafe_bytes(v: u32) -> [u8; 4] {
    [
        ((v >> 21) & 0x7f) as u8,
        ((v >> 14) & 0x7f) as u8,
        ((v >> 7) & 0x7f) as u8,
        (v & 0x7f) as u8,
    ]
}

fn v4_text_frame(id: &[u8; 4], text: &str) -> Vec<u8> {
    let mut out = Vec::new();
    out.extend_from_slice(id);
    let content_len = 1 + text.len() as u32;
    out.extend_from_slice(&synchsafe_bytes(content_len));
    out.extend_from_slice(&[0, 0]);
    out.push(0); // Latin-1
    out.extend_from_slice(text.as_bytes());
    out
}

fn v4_header_for(body: &[u8], unsync: bool) -> Id3v2Header {
    Id3v2Header {
        version: Id3v2Version::V4,
        size: body.len() as u32,
        unsynchronisation: unsync,
    }
}

#[test]
fn header_parse() {
    let mut bytes = Vec::new();
    bytes.extend_from_slice(b"ID3");
    bytes.push(4);
    bytes.push(0);
    bytes.push(0x80);
    bytes.extend_from_slice(&synchsafe_bytes(257));
    let header = Id3v2Header::parse(&bytes).unwrap();
    assert_eq!(header.version, Id3v2Version::V4);
    assert!(header.unsynchronisation);
    assert_eq!(header.size, 257);
}

#[test]
fn header_synchsafe_violation() {
    let mut bytes = Vec::new();
    bytes.extend_from_slice(b"ID3");
    bytes.push(4);
    bytes.push(0);
    bytes.push(0);
    bytes.extend_from_slice(&[0x80, 0, 0, 0]); // high bit set: corrupt
    assert_eq!(Id3v2Header::parse(&bytes), Err(TagError::Decode));
}

#[test]
fn synchsafe_value() {
    assert_eq!(synchsafe_u28(0, 0, 2, 1), Some(257));
    assert_eq!(synchsafe_u28(0x7f, 0x7f, 0x7f, 0x7f), Some(0x0fff_ffff));
    assert_eq!(synchsafe_u28(0x80, 0, 0, 0), None);
}

#[test]
fn zero_size_id3v2() {
    let header = Id3v2Header {
        version: Id3v2Version::V4,
        size: 0,
        unsynchronisation: false,
    };
    let tag = parse_id3v2(&[], header, ParsingMode::Strict).unwrap();
    assert_eq!(tag.len(), 0);
}

#[test]
fn bad_frame_id_relaxed_id3v2() {
    let mut body = v4_text_frame(b"TIT2", "Foo title");
    // A frame with "+" in its identifier, otherwise well formed.
    let mut bad = Vec::new();
    bad.extend_from_slice(b"+IT2");
    bad.extend_from_slice(&synchsafe_bytes(4));
    bad.extend_from_slice(&[0, 0]);
    bad.extend_from_slice(&[1, 2, 3, 4]);
    body.extend_from_slice(&bad);
    body.extend_from_slice(&v4_text_frame(b"TPE1", "Bar artist"));

    let header = v4_header_for(&body, false);

    assert_eq!(
        parse_id3v2(&body, header, ParsingMode::Strict),
        Err(TagError::Decode)
    );

    let id3v2 = parse_id3v2(&body, header, ParsingMode::Relaxed).unwrap();
    assert_eq!(id3v2.len(), 2);
    assert_eq!(id3v2.get_text("TIT2").map(String::as_str), Some("Foo title"));
    assert_eq!(id3v2.get_text("TPE1").map(String::as_str), Some("Bar artist"));
}

#[test]
fn unsynchronisation_round_trip() {
    let data: Vec<u8> = vec![0x00, 0xff, 0x00, 0xff, 0xfe, 0x12, 0xff, 0xff, 0xe0, 0x7f];
    let encoded = unsynch_encode(&data);
    // every 0xff is followed by a stuffing zero
    for i in 0..encoded.len() {
        if encoded[i] == 0xff {
            assert_eq!(encoded[i + 1], 0x00);
        }
    }
    assert_eq!(unsynch_decode(&encoded), data);
}

#[test]
fn unsynchronised_tag_body() {
    let body = v4_text_frame(b"TIT2", "Foo title");
    let stuffed = unsynch_encode(&body);
    let header = Id3v2Header {
        version: Id3v2Version::V4,
        size: stuffed.len() as u32,
        unsynchronisation: true,
    };
    let tag = parse_id3v2(&stuffed, header, ParsingMode::Strict).unwrap();
    assert_eq!(tag.get_text("TIT2").map(String::as_str), Some("Foo title"));
}

#[test]
fn extended_url_frame_identity() {
    let a = ExtendedUrlFrame {
        encoding: TextEncoding::Latin1,
        description: String::from("source"),
        content: String::from("https://one.example"),
    };
    let b = ExtendedUrlFrame {
        encoding: TextEncoding::UTF8,
        description: String::from("source"),
        content: String::from("https://two.example"),
    };
    assert_eq!(a, b);

    let mut ha = DefaultHasher::new();
    a.hash(&mut ha);
    let mut hb = DefaultHasher::new();
    b.hash(&mut hb);
    assert_eq!(ha.finish(), hb.finish());

    let mut tag = Id3v2Tag::new(Id3v2Version::V4, false);
    tag.insert(Frame::ExtendedUrl(a));
    tag.insert(Frame::ExtendedUrl(b.clone()));
    assert_eq!(tag.len(), 1);
    match &tag.frames()[0] {
        Frame::ExtendedUrl(f) => assert_eq!(f.content, b.content),
        _ => panic!("expected an extended URL frame"),
    }
}

#[test]
fn extended_url_frame_round_trip() {
    let frame = ExtendedUrlFrame {
        encoding: TextEncoding::Latin1,
        description: String::from("mirror"),
        content: String::from("https://example.com/x"),
    };
    let bytes = frame.as_bytes();
    let reread = ExtendedUrlFrame::parse(&bytes, Id3v2Version::V4)
        .unwrap()
        .unwrap();
    assert_eq!(reread.description, frame.description);
    assert_eq!(reread.content, frame.content);
    assert_eq!(reread.encoding, frame.encoding);
}

#[test]
fn extended_url_frame_utf16_description() {
    let frame = ExtendedUrlFrame {
        encoding: TextEncoding::UTF16,
        description: String::from("desc\u{e9}"),
        content: String::from("https://example.com"),
    };
    let bytes = frame.as_bytes();
    let reread = ExtendedUrlFrame::parse(&bytes, Id3v2Version::V4)
        .unwrap()
        .unwrap();
    assert_eq!(reread.description, frame.description);
    assert_eq!(reread.content, frame.content);
}

#[test]
fn extended_url_frame_bad_encoding_for_v2() {
    // Encoding byte 3 (UTF-8) is not permitted in the oldest version.
    let bytes = vec![3u8, b'd', 0, b'u'];
    assert_eq!(
        ExtendedUrlFrame::parse(&bytes, Id3v2Version::V2),
        Err(TagError::Decode)
    );
    assert!(ExtendedUrlFrame::parse(&bytes, Id3v2Version::V4)
        .unwrap()
        .is_some());
}

#[test]
fn empty_extended_url_frame_is_none() {
    assert_eq!(ExtendedUrlFrame::parse(&[], Id3v2Version::V4), Ok(None));
}

#[test]
fn oversized_frame_is_bad_length() {
    let mut body = Vec::new();
    body.extend_from_slice(b"+BAD");
    body.extend_from_slice(&synchsafe_bytes(100));
    body.extend_from_slice(&[0, 0]);
    body.push(1);
    let header = v4_header_for(&body, false);
    assert_eq!(
        parse_id3v2(&body, header, ParsingMode::Relaxed),
        Err(TagError::BadFrameLength)
    );
}
