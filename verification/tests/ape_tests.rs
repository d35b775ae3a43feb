use audiotag::ape::conv::SplitTagRemainder;
use audiotag::ape::item::ApeItem;
use audiotag::ape::read::read_ape_tag;
use audiotag::ape::tag::ApeTag;
use audiotag::model::{ItemKey, ItemValue, Tag, TagItem, TagType};

fn text_item(key: &str, value: &str) -> ApeItem {
    ApeItem::new(String::from(key), ItemValue::Text(String::from(value))).unwrap()
}

fn expected_tag() -> ApeTag {
    let mut expected_tag = ApeTag::default();
    expected_tag.insert(text_item("TITLE", "Foo title"));
    expected_tag.insert(text_item("ARTIST", "Bar artist"));
    expected_tag.insert(text_item("ALBUM", "Baz album"));
    expected_tag.insert(text_item("COMMENT", "Qux comment"));
    expected_tag.insert(text_item("YEAR", "1984"));
    expected_tag.insert(text_item("TRACK", "1"));
    expected_tag.insert(text_item("GENRE", "Classical"));
    expected_tag
}

fn tag_bytes() -> Vec<u8> {
    let mut writer = Vec::new();
    expected_tag().dump_to(&mut writer).unwrap();
    writer
}

#[test]
fn parse_ape() {
    let expected_tag = expected_tag();
    let tag = tag_bytes();

    let (parsed_tag, _) = read_ape_tag(&tag, 0, false).unwrap().unwrap();

    assert_eq!(expected_tag.len(), parsed_tag.len());

    for item in expected_tag.items() {
        assert!(parsed_tag.items().contains(item));
    }
}

#[test]
fn ape_re_read() {
    let tag_bytes = tag_bytes();

    let (parsed_tag, _) = read_ape_tag(&tag_bytes, 0, false).unwrap().unwrap();

    let mut writer = Vec::new();
    parsed_tag.dump_to(&mut writer).unwrap();

    let (temp_parsed_tag, _) = read_ape_tag(&writer, 0, false).unwrap().unwrap();

    assert_eq!(parsed_tag, temp_parsed_tag);
}

#[test]
fn ape_to_tag() {
    let tag_bytes = tag_bytes();

    let (ape, _) = read_ape_tag(&tag_bytes, 0, false).unwrap().unwrap();

    let (_, tag) = ape.split_tag();

    fn text_of<'a>(tag: &'a Tag, key: &ItemKey) -> &'a str {
        tag.get_string(key).map(String::as_str).unwrap()
    }

    assert_eq!(text_of(&tag, &ItemKey::TrackTitle), "Foo title");
    assert_eq!(text_of(&tag, &ItemKey::TrackArtist), "Bar artist");
    assert_eq!(text_of(&tag, &ItemKey::AlbumTitle), "Baz album");
    assert_eq!(text_of(&tag, &ItemKey::Comment), "Qux comment");
    assert_eq!(text_of(&tag, &ItemKey::TrackNumber), "1");
    assert_eq!(text_of(&tag, &ItemKey::Genre), "Classical");
}

#[test]
fn tag_to_ape() {
    fn verify_key(tag: &ApeTag, key: &str, expected_val: &str) {
        assert_eq!(
            tag.get(key).map(ApeItem::value),
            Some(&ItemValue::Text(String::from(expected_val)))
        );
    }

    let mut tag = Tag::new(TagType::Ape);
    tag.push(TagItem::new(
        ItemKey::TrackTitle,
        ItemValue::Text(String::from("Foo title")),
    ));
    tag.push(TagItem::new(
        ItemKey::TrackArtist,
        ItemValue::Text(String::from("Bar artist")),
    ));
    tag.push(TagItem::new(
        ItemKey::AlbumTitle,
        ItemValue::Text(String::from("Baz album")),
    ));
    tag.push(TagItem::new(
        ItemKey::Comment,
        ItemValue::Text(String::from("Qux comment")),
    ));
    tag.push(TagItem::new(
        ItemKey::TrackNumber,
        ItemValue::Text(String::from("1")),
    ));
    tag.push(TagItem::new(
        ItemKey::Genre,
        ItemValue::Text(String::from("Classical")),
    ));

    let ape_tag: ApeTag = SplitTagRemainder::new().merge_tag(tag);

    verify_key(&ape_tag, "Title", "Foo title");
    verify_key(&ape_tag, "Artist", "Bar artist");
    verify_key(&ape_tag, "Album", "Baz album");
    verify_key(&ape_tag, "Comment", "Qux comment");
    verify_key(&ape_tag, "Track", "1");
    verify_key(&ape_tag, "Genre", "Classical");
}

#[test]
fn set_track() {
    let mut ape = ApeTag::default();
    let track = 1;

    ape.set_track(track);

    assert_eq!(ape.track().unwrap(), track);
    assert!(ape.track_total().is_none());
}

#[test]
fn set_track_total() {
    let mut ape = ApeTag::default();
    let track_total = 2;

    ape.set_track_total(track_total);

    assert_eq!(ape.track().unwrap(), audiotag::pairs::DEFAULT_NUMBER_IN_PAIR);
    assert_eq!(ape.track_total().unwrap(), track_total);
}

#[test]
fn set_track_and_track_total() {
    let mut ape = ApeTag::default();
    let track = 1;
    let track_total = 2;

    ape.set_track(track);
    ape.set_track_total(track_total);

    assert_eq!(ape.track().unwrap(), track);
    assert_eq!(ape.track_total().unwrap(), track_total);
}

#[test]
fn set_track_total_and_track() {
    let mut ape = ApeTag::default();
    let track_total = 2;
    let track = 1;

    ape.set_track_total(track_total);
    ape.set_track(track);

    assert_eq!(ape.track_total().unwrap(), track_total);
    assert_eq!(ape.track().unwrap(), track);
}

#[test]
fn set_disk() {
    let mut ape = ApeTag::default();
    let disk = 1;

    ape.set_disk(disk);

    assert_eq!(ape.disk().unwrap(), disk);
    assert!(ape.disk_total().is_none());
}

#[test]
fn set_disk_total() {
    let mut ape = ApeTag::default();
    let disk_total = 2;

    ape.set_disk_total(disk_total);

    assert_eq!(ape.disk().unwrap(), audiotag::pairs::DEFAULT_NUMBER_IN_PAIR);
    assert_eq!(ape.disk_total().unwrap(), disk_total);
}

#[test]
fn set_disk_and_disk_total() {
    let mut ape = ApeTag::default();
    let disk = 1;
    let disk_total = 2;

    ape.set_disk(disk);
    ape.set_disk_total(disk_total);

    assert_eq!(ape.disk().unwrap(), disk);
    assert_eq!(ape.disk_total().unwrap(), disk_total);
}

#[test]
fn set_disk_total_and_disk() {
    let mut ape = ApeTag::default();
    let disk_total = 2;
    let disk = 1;

    ape.set_disk_total(disk_total);
    ape.set_disk(disk);

    assert_eq!(ape.disk_total().unwrap(), disk_total);
    assert_eq!(ape.disk().unwrap(), disk);
}

#[test]
fn track_number_tag_to_ape() {
    let track_number = 1;

    let mut tag = Tag::new(TagType::Ape);

    tag.push(TagItem::new(
        ItemKey::TrackNumber,
        ItemValue::Text(track_number.to_string()),
    ));

    let tag: ApeTag = SplitTagRemainder::new().merge_tag(tag);

    assert_eq!(tag.track().unwrap(), track_number);
    assert!(tag.track_total().is_none());
}

#[test]
fn track_total_tag_to_ape() {
    let track_total = 2;

    let mut tag = Tag::new(TagType::Ape);

    tag.push(TagItem::new(
        ItemKey::TrackTotal,
        ItemValue::Text(track_total.to_string()),
    ));

    let tag: ApeTag = SplitTagRemainder::new().merge_tag(tag);

    assert_eq!(tag.track().unwrap(), audiotag::pairs::DEFAULT_NUMBER_IN_PAIR);
    assert_eq!(tag.track_total().unwrap(), track_total);
}

#[test]
fn track_number_and_track_total_tag_to_ape() {
    let track_number = 1;
    let track_total = 2;

    let mut tag = Tag::new(TagType::Ape);

    tag.push(TagItem::new(
        ItemKey::TrackNumber,
        ItemValue::Text(track_number.to_string()),
    ));

    tag.push(TagItem::new(
        ItemKey::TrackTotal,
        ItemValue::Text(track_total.to_string()),
    ));

    let tag: ApeTag = SplitTagRemainder::new().merge_tag(tag);

    assert_eq!(tag.track().unwrap(), track_number);
    assert_eq!(tag.track_total().unwrap(), track_total);
}

#[test]
fn disk_number_tag_to_ape() {
    let disk_number = 1;

    let mut tag = Tag::new(TagType::Ape);

    tag.push(TagItem::new(
        ItemKey::DiscNumber,
        ItemValue::Text(disk_number.to_string()),
    ));

    let tag: ApeTag = SplitTagRemainder::new().merge_tag(tag);

    assert_eq!(tag.disk().unwrap(), disk_number);
    assert!(tag.disk_total().is_none());
}

#[test]
fn disk_total_tag_to_ape() {
    let disk_total = 2;

    let mut tag = Tag::new(TagType::Ape);

    tag.push(TagItem::new(
        ItemKey::DiscTotal,
        ItemValue::Text(disk_total.to_string()),
    ));

    let tag: ApeTag = SplitTagRemainder::new().merge_tag(tag);

    assert_eq!(tag.disk().unwrap(), audiotag::pairs::DEFAULT_NUMBER_IN_PAIR);
    assert_eq!(tag.disk_total().unwrap(), disk_total);
}

#[test]
fn disk_number_and_disk_total_tag_to_ape() {
    let disk_number = 1;
    let disk_total = 2;

    let mut tag = Tag::new(TagType::Ape);

    tag.push(TagItem::new(
        ItemKey::DiscNumber,
        ItemValue::Text(disk_number.to_string()),
    ));

    tag.push(TagItem::new(
        ItemKey::DiscTotal,
        ItemValue::Text(disk_total.to_string()),
    ));

    let tag: ApeTag = SplitTagRemainder::new().merge_tag(tag);

    assert_eq!(tag.disk().unwrap(), disk_number);
    assert_eq!(tag.disk_total().unwrap(), disk_total);
}

#[test]
fn case_insensitive_get_and_replace() {
    let mut ape = ApeTag::new();
    ape.insert(text_item("Title", "First"));

    assert!(ape.get("TITLE").is_some());
    assert!(ape.get("title").is_some());

    ape.insert(text_item("TITLE", "Second"));
    assert_eq!(ape.len(), 1);
    assert_eq!(
        ape.get("title").map(ApeItem::value),
        Some(&ItemValue::Text(String::from("Second")))
    );
}

#[test]
fn key_length_rejected() {
    assert!(ApeItem::new(String::new(), ItemValue::Text(String::from("x"))).is_err());
    assert!(ApeItem::new(String::from("a"), ItemValue::Text(String::from("x"))).is_err());
    let long_key: String = std::iter::repeat('k').take(256).collect();
    assert!(ApeItem::new(long_key, ItemValue::Text(String::from("x"))).is_err());
    let ok_key: String = std::iter::repeat('k').take(255).collect();
    assert!(ApeItem::new(ok_key, ItemValue::Text(String::from("x"))).is_ok());
}

#[test]
fn reserved_keys_rejected() {
    assert!(ApeItem::new(String::from("ID3"), ItemValue::Text(String::from("x"))).is_err());
    assert!(ApeItem::new(String::from("tag"), ItemValue::Text(String::from("x"))).is_err());
    assert!(ApeItem::new(String::from("OggS"), ItemValue::Text(String::from("x"))).is_err());
    assert!(ApeItem::new(String::from("MP+"), ItemValue::Text(String::from("x"))).is_err());
}

#[test]
fn remove_track_total_keeps_track() {
    let mut ape = ApeTag::default();
    ape.set_track(7);
    ape.set_track_total(12);
    ape.remove_track_total();

    assert_eq!(ape.track(), Some(7));
    assert!(ape.track_total().is_none());
}

#[test]
fn year_accessor() {
    let mut ape = ApeTag::default();
    ape.set_year(1984);
    assert_eq!(ape.year(), Some(1984));
    ape.remove_year();
    assert!(ape.year().is_none());
}

#[test]
fn size_mismatch_rejected() {
    // A record declaring a value size beyond the remaining tag size.
    let mut bytes = Vec::new();
    bytes.extend_from_slice(b"APETAGEX");
    bytes.extend_from_slice(&2000u32.to_le_bytes());
    bytes.extend_from_slice(&64u32.to_le_bytes()); // declared size
    bytes.extend_from_slice(&1u32.to_le_bytes()); // one item
    bytes.extend_from_slice(&0u32.to_le_bytes()); // flags
    bytes.extend_from_slice(&[0u8; 8]); // reserved
    bytes.extend_from_slice(&1000u32.to_le_bytes()); // value size too large
    assert_eq!(
        read_ape_tag(&bytes, 0, false),
        Err(audiotag::TagError::SizeMismatch)
    );
}

#[test]
fn invalid_item_type_rejected() {
    // One record with type code 3, which no item may use.
    let mut body = Vec::new();
    body.extend_from_slice(&1u32.to_le_bytes()); // value size
    body.extend_from_slice(&6u32.to_le_bytes()); // flags: type code 3
    body.extend_from_slice(b"Key\0x");
    let mut bytes = Vec::new();
    bytes.extend_from_slice(b"APETAGEX");
    bytes.extend_from_slice(&2000u32.to_le_bytes());
    bytes.extend_from_slice(&((body.len() + 32) as u32).to_le_bytes());
    bytes.extend_from_slice(&1u32.to_le_bytes());
    bytes.extend_from_slice(&0u32.to_le_bytes());
    bytes.extend_from_slice(&[0u8; 8]);
    bytes.extend_from_slice(&body);
    assert_eq!(
        read_ape_tag(&bytes, 0, false),
        Err(audiotag::TagError::Decode)
    );
}

#[test]
fn missing_preamble_is_no_tag() {
    let bytes = b"NOTAPETA the rest does not matter".to_vec();
    assert_eq!(read_ape_tag(&bytes, 0, false), Ok(None));
}

#[test]
fn binary_and_locator_round_trip() {
    let mut ape = ApeTag::new();
    ape.insert(
        ApeItem::new(
            String::from("Cover Art (Front)"),
            ItemValue::Binary(vec![0u8, 1, 2, 0xff, 0]),
        )
        .unwrap(),
    );
    ape.insert(
        ApeItem::new(
            String::from("Buy URL"),
            ItemValue::Locator(String::from("https://example.com/a")),
        )
        .unwrap(),
    );

    let mut writer = Vec::new();
    ape.dump_to(&mut writer).unwrap();
    let (reread, header) = read_ape_tag(&writer, 0, false).unwrap().unwrap();
    assert_eq!(ape, reread);
    assert_eq!(header.item_count, 2);
}

#[test]
fn non_utf8_text_value_rejected() {
    // One record of type text whose value bytes are not UTF-8.
    let mut body = Vec::new();
    body.extend_from_slice(&2u32.to_le_bytes()); // value size
    body.extend_from_slice(&0u32.to_le_bytes()); // flags: text
    body.extend_from_slice(b"Key\0");
    body.extend_from_slice(&[0xff, 0xfe]);
    let mut bytes = Vec::new();
    bytes.extend_from_slice(b"APETAGEX");
    bytes.extend_from_slice(&2000u32.to_le_bytes());
    bytes.extend_from_slice(&((body.len() + 32) as u32).to_le_bytes());
    bytes.extend_from_slice(&1u32.to_le_bytes());
    bytes.extend_from_slice(&0u32.to_le_bytes());
    bytes.extend_from_slice(&[0u8; 8]);
    bytes.extend_from_slice(&body);
    assert_eq!(
        read_ape_tag(&bytes, 0, false),
        Err(audiotag::TagError::Decode)
    );
}

#[test]
fn split_and_merge_round_trip() {
    let mut ape = ApeTag::new();
    ape.insert(text_item("Title", "Foo title"));
    ape.insert(text_item("Track", "3/12"));
    ape.insert(text_item("CustomKey", "kept verbatim"));

    let (remainder, tag) = ape.split_tag();
    assert_eq!(tag.len(), 4); // title, track, track total, custom
    assert_eq!(
        tag.get_string(&ItemKey::TrackNumber).map(String::as_str),
        Some("3")
    );
    assert_eq!(
        tag.get_string(&ItemKey::TrackTotal).map(String::as_str),
        Some("12")
    );

    let merged = remainder.merge_tag(tag);
    assert_eq!(merged.track(), Some(3));
    assert_eq!(merged.track_total(), Some(12));
    assert_eq!(
        merged.get("Title").map(ApeItem::value),
        Some(&ItemValue::Text(String::from("Foo title")))
    );
    assert_eq!(
        merged.get("customkey").map(ApeItem::value),
        Some(&ItemValue::Text(String::from("kept verbatim")))
    );
}

#[test]
fn reserved_key_record_skipped() {
    // A good record followed by a record under a reserved key: the
    // reserved record is a warning that skips the item, and parsing
    // keeps the rest of the tag.
    let mut body = Vec::new();
    body.extend_from_slice(&1u32.to_le_bytes()); // value size
    body.extend_from_slice(&0u32.to_le_bytes()); // flags: text
    body.extend_from_slice(b"Good\0x");
    body.extend_from_slice(&1u32.to_le_bytes());
    body.extend_from_slice(&0u32.to_le_bytes());
    body.extend_from_slice(b"TAG\0y");
    let mut bytes = Vec::new();
    bytes.extend_from_slice(b"APETAGEX");
    bytes.extend_from_slice(&2000u32.to_le_bytes());
    bytes.extend_from_slice(&((body.len() + 32) as u32).to_le_bytes());
    bytes.extend_from_slice(&2u32.to_le_bytes());
    bytes.extend_from_slice(&0u32.to_le_bytes());
    bytes.extend_from_slice(&[0u8; 8]);
    bytes.extend_from_slice(&body);

    let (tag, _) = read_ape_tag(&bytes, 0, false).unwrap().unwrap();
    assert_eq!(tag.len(), 1);
    assert_eq!(
        tag.get("Good").map(ApeItem::value),
        Some(&ItemValue::Text(String::from("x")))
    );
    assert!(tag.get("TAG").is_none());
}
