use audiotag::flac::{read_from, verify_flac, Block};
use audiotag::vorbis::{read_comments, VorbisComments};
use audiotag::{ParseOptions, ParsingMode, TagError};

fn block_header(ty: u8, last: bool, len: u32) -> Vec<u8> {
    let mut out = Vec::new();
    out.push(if last { ty | 0x80 } else { ty });
    out.extend_from_slice(&[(len >> 16) as u8, (len >> 8) as u8, len as u8]);
    out
}

fn stream_info_block(last: bool) -> Vec<u8> {
    let mut out = block_header(0, last, 18);
    out.extend_from_slice(&[0u8; 18]);
    out
}

fn comments_payload(vendor: &str, items: &[(&str, &str)]) -> Vec<u8> {
    let mut c = VorbisComments::new(String::from(vendor));
    for (k, v) in items {
        c.push_item(String::from(*k), String::from(*v));
    }
    c.as_bytes().unwrap()
}

fn strict() -> ParseOptions {
    ParseOptions {
        parsing_mode: ParsingMode::Strict,
        read_properties: false,
    }
}

fn relaxed() -> ParseOptions {
    ParseOptions {
        parsing_mode: ParsingMode::Relaxed,
        read_properties: false,
    }
}

#[test]
fn verify_flac_marker() {
    let mut data = b"fLaC".to_vec();
    data.extend_from_slice(&stream_info_block(true));
    let (block, _) = verify_flac(&data, 0).unwrap();
    assert_eq!(block.ty, 0);
    assert!(block.last);
    assert_eq!(block.content.len(), 18);

    let bad = b"flac".to_vec();
    assert_eq!(verify_flac(&bad, 0), Err(TagError::Decode));
}

#[test]
fn missing_stream_info_fails_any_mode() {
    // The first block after the marker is a padding block, not STREAMINFO.
    let mut data = b"fLaC".to_vec();
    let mut padding = block_header(1, true, 4);
    padding.extend_from_slice(&[0u8; 4]);
    data.extend_from_slice(&padding);

    assert_eq!(read_from(&data, strict()), Err(TagError::Decode));
    assert_eq!(read_from(&data, relaxed()), Err(TagError::Decode));
}

#[test]
fn short_stream_info_rejected() {
    let mut data = b"fLaC".to_vec();
    let mut si = block_header(0, true, 17);
    si.extend_from_slice(&[0u8; 17]);
    data.extend_from_slice(&si);
    assert_eq!(read_from(&data, strict()), Err(TagError::Decode));
}

#[test]
fn vorbis_comments_read() {
    let payload = comments_payload("vendor", &[("TITLE", "Foo"), ("ARTIST", "Bar")]);
    let mut data = b"fLaC".to_vec();
    data.extend_from_slice(&stream_info_block(false));
    data.extend_from_slice(&block_header(4, true, payload.len() as u32));
    data.extend_from_slice(&payload);

    let file = read_from(&data, strict()).unwrap();
    let comments = file.vorbis_comments_tag.unwrap();
    assert_eq!(comments.vendor(), "vendor");
    assert_eq!(comments.len(), 2);
    assert_eq!(comments.items()[0], (String::from("TITLE"), String::from("Foo")));
    assert_eq!(comments.items()[1], (String::from("ARTIST"), String::from("Bar")));
}

#[test]
fn second_vorbis_block_strict_vs_relaxed() {
    let first = comments_payload("v1", &[("TITLE", "One")]);
    let second = comments_payload("v2", &[("TITLE", "Two")]);
    let mut data = b"fLaC".to_vec();
    data.extend_from_slice(&stream_info_block(false));
    data.extend_from_slice(&block_header(4, false, first.len() as u32));
    data.extend_from_slice(&first);
    data.extend_from_slice(&block_header(4, true, second.len() as u32));
    data.extend_from_slice(&second);

    assert_eq!(read_from(&data, strict()), Err(TagError::Decode));

    // In relaxed mode the latest block wins.
    let file = read_from(&data, relaxed()).unwrap();
    let comments = file.vorbis_comments_tag.unwrap();
    assert_eq!(comments.vendor(), "v2");
    assert_eq!(comments.items()[0].1, "Two");
}

#[test]
fn empty_block_rejected_unless_padding_or_seektable() {
    let mut data = b"fLaC".to_vec();
    data.extend_from_slice(&stream_info_block(false));
    data.extend_from_slice(&block_header(1, false, 0)); // empty padding: fine
    data.extend_from_slice(&block_header(3, false, 0)); // empty seek table: fine
    data.extend_from_slice(&block_header(6, true, 0)); // empty picture: error
    assert_eq!(read_from(&data, relaxed()), Err(TagError::Decode));
}

#[test]
fn picture_envelopes_collected() {
    let pic = vec![9u8, 8, 7, 6];
    let mut data = b"fLaC".to_vec();
    data.extend_from_slice(&stream_info_block(false));
    data.extend_from_slice(&block_header(6, true, pic.len() as u32));
    data.extend_from_slice(&pic);
    let file = read_from(&data, strict()).unwrap();
    assert_eq!(file.pictures.len(), 1);
    assert_eq!(file.pictures[0], pic);
}

#[test]
fn embedded_id3v2_detected() {
    // A leading ID3v2 tag with no frames, then the FLAC stream.
    let mut data = Vec::new();
    data.extend_from_slice(b"ID3");
    data.push(4);
    data.push(0);
    data.push(0);
    data.extend_from_slice(&[0, 0, 0, 0]); // zero synchsafe size
    data.extend_from_slice(b"fLaC");
    data.extend_from_slice(&stream_info_block(true));
    let file = read_from(&data, strict()).unwrap();
    assert!(file.id3v2_tag.is_some());
    assert_eq!(file.id3v2_tag.unwrap().len(), 0);
}

#[test]
fn vorbis_round_trip() {
    let mut c = VorbisComments::new(String::from("reference vendor"));
    c.push_item(String::from("TITLE"), String::from("Foo title"));
    c.push_item(String::from("TITLE"), String::from("duplicate kept"));
    c.push_item(String::from("ARTIST"), String::from("Bar artist"));
    let bytes = c.as_bytes().unwrap();
    let reread = read_comments(&bytes, ParsingMode::Strict).unwrap();
    assert_eq!(c, reread);
}

#[test]
fn vorbis_malformed_entry_strict_vs_relaxed() {
    // An entry without `=` between two good entries.
    let mut bytes = Vec::new();
    bytes.extend_from_slice(&6u32.to_le_bytes());
    bytes.extend_from_slice(b"vendor");
    bytes.extend_from_slice(&3u32.to_le_bytes());
    for entry in [&b"A=1"[..], &b"broken"[..], &b"B=2"[..]] {
        bytes.extend_from_slice(&(entry.len() as u32).to_le_bytes());
        bytes.extend_from_slice(entry);
    }
    assert_eq!(
        read_comments(&bytes, ParsingMode::Strict),
        Err(TagError::Decode)
    );
    let relaxed = read_comments(&bytes, ParsingMode::Relaxed).unwrap();
    assert_eq!(relaxed.len(), 2);
    assert_eq!(relaxed.items()[0], (String::from("A"), String::from("1")));
    assert_eq!(relaxed.items()[1], (String::from("B"), String::from("2")));
}

#[test]
fn block_read_truncated() {
    let data = block_header(4, false, 100);
    assert_eq!(Block::read(&data, 0), Err(TagError::Truncated));
}
