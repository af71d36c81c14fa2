use wilson::dgds::ads::Ads;
use wilson::dgds::archive::Archive;
use wilson::dgds::bmp::Bmp;
use wilson::dgds::chunk::{read_packed_block, ChunkHeader};
use wilson::dgds::decompress::{decompress, lzw, rle, METHOD_NONE};
use wilson::dgds::error::DgdsError;
use wilson::dgds::exe_sound::{sounds_from_scrantic_exe, wav_data_len};
use wilson::dgds::pal::{Palette, PALETTE_LEN};
use wilson::dgds::pixels::decode_4bpp;
use wilson::dgds::reader::Reader;
use wilson::dgds::resource::{read_entry_header, ResourceMap, ResourceMapEntry};
use wilson::dgds::scr::Scr;
use wilson::dgds::ttm::Ttm;

fn packed_none(body: &[u8]) -> Vec<u8> {
    let mut out = Vec::new();
    out.extend_from_slice(&((body.len() + 5) as u32).to_le_bytes());
    out.push(0);
    out.extend_from_slice(&(body.len() as u32).to_le_bytes());
    out.extend_from_slice(body);
    out
}

#[test]
fn parse_ads() {
    let mut bytes = Vec::new();
    bytes.extend_from_slice(b"VER:");
    bytes.extend_from_slice(&5u32.to_le_bytes());
    bytes.extend_from_slice(b"1.20\0");
    bytes.extend_from_slice(b"ADS:");
    bytes.extend_from_slice(&[0, 0, 0, 0]);
    bytes.extend_from_slice(b"RES:");
    bytes.extend_from_slice(&0u32.to_le_bytes());
    bytes.extend_from_slice(&1u16.to_le_bytes());
    bytes.extend_from_slice(&1u16.to_le_bytes());
    bytes.extend_from_slice(b"FISHING.TTM\0");
    bytes.extend_from_slice(b"SCR:");
    bytes.extend_from_slice(&packed_none(&[0x05, 0x20, 0xFF, 0xFF]));
    bytes.extend_from_slice(b"TAG:");
    bytes.extend_from_slice(&0u32.to_le_bytes());
    bytes.extend_from_slice(&1u16.to_le_bytes());
    bytes.extend_from_slice(&1u16.to_le_bytes());
    bytes.extend_from_slice(b"fish\0");

    let ads = Ads::parse(&bytes).unwrap();
    assert_eq!(ads.version, "1.20");
    assert_eq!(ads.resources.len(), 1);
    assert_eq!(ads.resources[0].id, 1);
    assert_eq!(ads.resources[0].name, "FISHING.TTM");
    assert_eq!(ads.bytecode, vec![0x05, 0x20, 0xFF, 0xFF]);
    assert_eq!(ads.tags[0].description, "fish");
}

fn name_field(name: &str) -> Vec<u8> {
    let mut f = vec![0u8; 13];
    f[..name.len()].copy_from_slice(name.as_bytes());
    f
}

fn minimal_pal_body() -> Vec<u8> {
    let mut p = Vec::new();
    p.extend_from_slice(b"PAL:");
    p.extend_from_slice(&0u16.to_le_bytes());
    p.extend_from_slice(&[0, 0]);
    p.extend_from_slice(b"VGA:");
    p.extend_from_slice(&768u32.to_le_bytes());
    p.extend_from_slice(&[63, 0, 0]);
    for _ in 1..256 {
        p.extend_from_slice(&[0, 0, 0]);
    }
    p
}

#[test]
fn loads_pal_and_skips_vin() {
    let pal_body = minimal_pal_body();
    let mut archive_bytes = Vec::new();

    let pal_offset = archive_bytes.len() as u32;
    archive_bytes.extend_from_slice(&name_field("TEST.PAL"));
    archive_bytes.extend_from_slice(&(pal_body.len() as u32).to_le_bytes());
    archive_bytes.extend_from_slice(&pal_body);

    let vin_offset = archive_bytes.len() as u32;
    archive_bytes.extend_from_slice(&name_field("FILES.VIN"));
    archive_bytes.extend_from_slice(&4u32.to_le_bytes());
    archive_bytes.extend_from_slice(b"junk");

    let mut map = Vec::new();
    map.extend_from_slice(&[0, 0, 0, 2, 0, 0]);
    map.extend_from_slice(&name_field("RESOURCE.001"));
    map.extend_from_slice(&2u16.to_le_bytes());
    map.extend_from_slice(&(pal_body.len() as u32).to_le_bytes());
    map.extend_from_slice(&pal_offset.to_le_bytes());
    map.extend_from_slice(&4u32.to_le_bytes());
    map.extend_from_slice(&vin_offset.to_le_bytes());

    let archive = Archive::parse(&map, &archive_bytes).unwrap();
    assert_eq!(archive.data_file_name, "RESOURCE.001");
    assert_eq!(archive.palettes.len(), 1);
    assert_eq!(archive.skipped, vec!["FILES.VIN".to_string()]);
    assert_eq!(archive.palette().unwrap().rgb(0), [63 << 2, 0, 0]);
}

#[test]
fn parse_two_images() {
    let pixels = [0x12u8, 0x34, 0xAB];
    let mut bytes = Vec::new();
    bytes.extend_from_slice(b"BMP:");
    bytes.extend_from_slice(&2u16.to_le_bytes());
    bytes.extend_from_slice(&3u16.to_le_bytes());
    bytes.extend_from_slice(b"INF:");
    bytes.extend_from_slice(&0u32.to_le_bytes());
    bytes.extend_from_slice(&2u16.to_le_bytes());
    bytes.extend_from_slice(&2u16.to_le_bytes());
    bytes.extend_from_slice(&2u16.to_le_bytes());
    bytes.extend_from_slice(&2u16.to_le_bytes());
    bytes.extend_from_slice(&1u16.to_le_bytes());
    bytes.extend_from_slice(b"BIN:");
    bytes.extend_from_slice(&packed_none(&pixels));

    let bmp = Bmp::parse(&bytes).unwrap();
    assert_eq!(bmp.images.len(), 2);
    assert_eq!(bmp.images[0].pixels, vec![1, 2, 3, 4]);
    assert_eq!((bmp.images[1].width, bmp.images[1].height), (2, 1));
    assert_eq!(bmp.images[1].pixels, vec![10, 11]);
}

#[test]
fn rejects_truncated_pixels() {
    let mut bytes = Vec::new();
    bytes.extend_from_slice(b"BMP:");
    bytes.extend_from_slice(&2u16.to_le_bytes());
    bytes.extend_from_slice(&2u16.to_le_bytes());
    bytes.extend_from_slice(b"INF:");
    bytes.extend_from_slice(&0u32.to_le_bytes());
    bytes.extend_from_slice(&1u16.to_le_bytes());
    bytes.extend_from_slice(&4u16.to_le_bytes());
    bytes.extend_from_slice(&4u16.to_le_bytes());
    bytes.extend_from_slice(b"BIN:");
    bytes.extend_from_slice(&packed_none(&[0x12, 0x34]));
    assert!(Bmp::parse(&bytes).is_err());
}

#[test]
fn header_plain() {
    let mut bytes = Vec::new();
    bytes.extend_from_slice(b"SCR:");
    bytes.extend_from_slice(&16u32.to_le_bytes());
    let mut r = Reader::new(&bytes);
    let h = ChunkHeader::read(&mut r).unwrap();
    assert_eq!(h.tag, *b"SCR:");
    assert_eq!(h.size, 16);
    assert!(!h.container);
    assert_eq!(h.name(), "SCR");
}

#[test]
fn header_container_bit() {
    let mut bytes = Vec::new();
    bytes.extend_from_slice(b"PAL:");
    bytes.extend_from_slice(&(0x8000_0000u32 | 32).to_le_bytes());
    let mut r = Reader::new(&bytes);
    let h = ChunkHeader::read(&mut r).unwrap();
    assert!(h.container);
    assert_eq!(h.size, 32);
}

#[test]
fn header_rejects_bad_tag() {
    let bytes = *b"SCRX\x00\x00\x00\x00";
    let mut r = Reader::new(&bytes);
    assert!(matches!(
        ChunkHeader::read(&mut r),
        Err(DgdsError::Malformed(_))
    ));
}

#[test]
fn packed_block_rle() {
    let body = [0x83u8, 0xAB];
    let mut bytes = Vec::new();
    bytes.extend_from_slice(&((body.len() + 5) as u32).to_le_bytes());
    bytes.push(1);
    bytes.extend_from_slice(&3u32.to_le_bytes());
    bytes.extend_from_slice(&body);
    let mut r = Reader::new(&bytes);
    assert_eq!(read_packed_block(&mut r).unwrap(), vec![0xAB, 0xAB, 0xAB]);
}

#[test]
fn none_passthrough() {
    let data = [1u8, 2, 3, 4, 5];
    assert_eq!(decompress(METHOD_NONE, &data, 3).unwrap(), vec![1, 2, 3]);
}

#[test]
fn none_too_short() {
    let data = [1u8, 2];
    assert!(decompress(METHOD_NONE, &data, 4).is_err());
}

#[test]
fn unknown_method() {
    assert_eq!(
        decompress(7, &[0u8], 1),
        Err(DgdsError::UnknownCompression(7))
    );
}

#[test]
fn rle_repeat() {
    let out = rle(&[0x83, 0xAA], 3).unwrap();
    assert_eq!(out, vec![0xAA, 0xAA, 0xAA]);
}

#[test]
fn rle_literal() {
    let out = rle(&[0x03, 1, 2, 3], 3).unwrap();
    assert_eq!(out, vec![1, 2, 3]);
}

#[test]
fn rle_mixed_and_bounded() {
    let input = [0x02, 10, 11, 0x84, 0x07, 0x01, 99];
    let out = rle(&input, 5).unwrap();
    assert_eq!(out, vec![10, 11, 0x07, 0x07, 0x07]);
}

#[test]
fn rle_truncated_input_errors() {
    assert!(rle(&[0x05, 1, 2], 5).is_err());
}

struct BitWriter {
    bytes: Vec<u8>,
    cur: u8,
    nbit: u32,
}

impl BitWriter {
    fn new() -> Self {
        Self { bytes: Vec::new(), cur: 0, nbit: 0 }
    }
    fn put(&mut self, val: u32, n: u32) {
        for i in 0..n {
            if (val >> i) & 1 != 0 {
                self.cur |= 1 << self.nbit;
            }
            self.nbit += 1;
            if self.nbit > 7 {
                self.bytes.push(self.cur);
                self.cur = 0;
                self.nbit = 0;
            }
        }
    }
    fn finish(mut self) -> Vec<u8> {
        if self.nbit > 0 {
            self.bytes.push(self.cur);
        }
        self.bytes
    }
}

fn lzw_width(emit_index: usize) -> u32 {
    match emit_index {
        0..=255 => 9,
        256..=767 => 10,
        768..=1791 => 11,
        _ => 12,
    }
}

fn lzw_encode(input: &[u8]) -> Vec<u8> {
    if input.is_empty() {
        return Vec::new();
    }
    let mut writer = BitWriter::new();
    let mut dict: std::collections::HashMap<(u16, u8), u16> = std::collections::HashMap::new();
    let mut free_entry: u32 = 257;
    let mut emit_index: usize = 0;

    let mut current = u16::from(input[0]);
    for &c in &input[1..] {
        if let Some(&code) = dict.get(&(current, c)) {
            current = code;
        } else {
            writer.put(u32::from(current), lzw_width(emit_index));
            emit_index += 1;
            if free_entry < 4096 {
                dict.insert((current, c), free_entry as u16);
                free_entry += 1;
            }
            current = u16::from(c);
        }
    }
    writer.put(u32::from(current), lzw_width(emit_index));
    writer.finish()
}

fn roundtrip(input: &[u8]) {
    let encoded = lzw_encode(input);
    let decoded = lzw(&encoded, input.len()).unwrap();
    assert_eq!(decoded, input, "LZW round-trip mismatch");
}

#[test]
fn lzw_roundtrip_small() {
    roundtrip(b"ABABABA");
    roundtrip(b"TOBEORNOTTOBEORTOBEORNOT");
    roundtrip(b"aaaaaaaaaaaaaaaaaaaa");
}

#[test]
fn lzw_roundtrip_crosses_bit_width() {
    let mut input = Vec::new();
    for _ in 0..4 {
        input.extend(0u8..=255);
    }
    roundtrip(&input);
}

#[test]
fn lzw_roundtrip_binary_pattern() {
    let mut input = Vec::new();
    let mut x: u8 = 0;
    for _ in 0..2000 {
        input.push(x);
        x = x.wrapping_mul(31).wrapping_add(7);
    }
    roundtrip(&input);
}

#[test]
fn lzw_stops_at_the_requested_size_and_handles_a_clear_code() {
    let input = b"TOBEORNOTTOBEORTOBEORNOT";
    let encoded = lzw_encode(input);
    assert_eq!(lzw(&encoded, 5).unwrap(), b"TOBEO".to_vec());
    assert_eq!(lzw(&encoded, 0).unwrap(), Vec::<u8>::new());
    // A literal, then the clear code: nothing more is emitted after the reset, so a
    // stream asked for four bytes ends early and is refused.
    let mut w = BitWriter::new();
    w.put(u32::from(b'Z'), 9);
    w.put(256, 9);
    let bytes = w.finish();
    assert_eq!(lzw(&bytes, 1).unwrap(), b"Z".to_vec());
    assert!(matches!(lzw(&bytes, 4), Err(DgdsError::Malformed(_))));
    assert!(matches!(lzw(&[], 5), Err(DgdsError::Malformed(_))));
}

fn make_wav(data_len: usize) -> Vec<u8> {
    let mut w = Vec::new();
    w.extend_from_slice(b"RIFF");
    w.extend_from_slice(&((36 + data_len) as u32).to_le_bytes());
    w.extend_from_slice(b"WAVE");
    w.extend_from_slice(b"fmt ");
    w.extend_from_slice(&16u32.to_le_bytes());
    w.extend_from_slice(&1u16.to_le_bytes());
    w.extend_from_slice(&1u16.to_le_bytes());
    w.extend_from_slice(&11025u32.to_le_bytes());
    w.extend_from_slice(&11025u32.to_le_bytes());
    w.extend_from_slice(&1u16.to_le_bytes());
    w.extend_from_slice(&8u16.to_le_bytes());
    w.extend_from_slice(b"data");
    w.extend_from_slice(&(data_len as u32).to_le_bytes());
    w.resize(w.len() + data_len, 0x80u8);
    w
}

#[test]
fn extracts_and_maps_embedded_wavs_by_length() {
    let mut exe = vec![0u8; 64];
    exe.extend_from_slice(&make_wav(1488));
    exe.extend_from_slice(&[0xCCu8; 16]);
    exe.extend_from_slice(&make_wav(9672));
    let sounds = sounds_from_scrantic_exe(&exe);
    assert_eq!(sounds.len(), 25);
    assert!(sounds[2].is_some(), "id 2 (len 1488) extracted");
    assert!(sounds[24].is_some(), "id 24 (len 9672) extracted");
    assert!(sounds[0].is_none() && sounds[11].is_none() && sounds[13].is_none());
    let w = sounds[2].as_ref().unwrap();
    assert_eq!(&w[0..4], b"RIFF");
    assert_eq!(&w[8..12], b"WAVE");
    assert_eq!(wav_data_len(w), Some(1488));
}

#[test]
fn no_sounds_in_unrelated_bytes() {
    assert!(sounds_from_scrantic_exe(&[0u8; 1000])
        .iter()
        .all(Option::is_none));
    assert!(sounds_from_scrantic_exe(&make_wav(99))
        .iter()
        .all(Option::is_none));
}

fn build_pal() -> Vec<u8> {
    let mut p = Vec::new();
    p.extend_from_slice(b"PAL:");
    p.extend_from_slice(&0u16.to_le_bytes());
    p.push(0);
    p.push(0);
    p.extend_from_slice(b"VGA:");
    p.extend_from_slice(&768u32.to_le_bytes());
    p.extend_from_slice(&[63, 0, 32]);
    p.extend_from_slice(&[0, 63, 0]);
    for _ in 2..PALETTE_LEN {
        p.extend_from_slice(&[0, 0, 0]);
    }
    p
}

#[test]
fn parse_palette() {
    let pal = Palette::parse(&build_pal()).unwrap();
    assert_eq!(pal.rgb(0), [63 << 2, 0, 32 << 2]);
    assert_eq!(pal.rgb(1), [0, 252, 0]);
    assert_eq!(pal.rgb(255), [0, 0, 0]);
}

#[test]
fn pal_rejects_wrong_tag() {
    let mut bytes = b"XXX:".to_vec();
    bytes.extend_from_slice(&[0u8; 8]);
    assert!(Palette::parse(&bytes).is_err());
}

#[test]
fn rejects_truncated() {
    let bytes = b"PAL:".to_vec();
    assert!(Palette::parse(&bytes).is_err());
}

#[test]
fn decodes_high_then_low_nibble() {
    assert_eq!(decode_4bpp(&[0x1F, 0xA0], 4), vec![1, 15, 10, 0]);
}

#[test]
fn stops_at_num_pixels() {
    assert_eq!(decode_4bpp(&[0x12, 0x34], 3), vec![1, 2, 3]);
}

#[test]
fn tolerates_short_input() {
    assert_eq!(decode_4bpp(&[0x12], 4), vec![1, 2]);
}

fn build_map() -> Vec<u8> {
    let mut m = Vec::new();
    m.extend_from_slice(&[0, 0, 0, 2, 0, 0]);
    let mut name = b"RESOURCE.001".to_vec();
    name.push(0);
    m.extend_from_slice(&name);
    m.extend_from_slice(&2u16.to_le_bytes());
    m.extend_from_slice(&100u32.to_le_bytes());
    m.extend_from_slice(&0u32.to_le_bytes());
    m.extend_from_slice(&50u32.to_le_bytes());
    m.extend_from_slice(&200u32.to_le_bytes());
    m
}

#[test]
fn parse_map() {
    let map = ResourceMap::parse(&build_map()).unwrap();
    assert_eq!(map.data_file_name, "RESOURCE.001");
    assert_eq!(map.entries.len(), 2);
    assert_eq!(
        map.entries[0],
        ResourceMapEntry {
            length: 100,
            offset: 0
        }
    );
    assert_eq!(map.entries[1].offset, 200);
}

#[test]
fn parse_entry_header() {
    let mut archive = vec![0u8; 8];
    let mut name = b"ACTIVITY.ADS".to_vec();
    name.push(0);
    archive.extend_from_slice(&name);
    archive.extend_from_slice(&1234u32.to_le_bytes());
    archive.extend_from_slice(b"BODYBYTES");

    let entry = read_entry_header(&archive, 8).unwrap();
    assert_eq!(entry.name, "ACTIVITY.ADS");
    assert_eq!(entry.size, 1234);
    assert_eq!(entry.body_offset, 8 + 13 + 4);
    assert_eq!(wilson::dgds::resource::resource_extension(&entry.name), Some(".ADS"));
}

#[test]
fn truncated_map_errors() {
    assert!(ResourceMap::parse(&[0, 0, 0]).is_err());
}

#[test]
fn parse_scr() {
    let mut bytes = Vec::new();
    bytes.extend_from_slice(b"SCR:");
    bytes.extend_from_slice(&0u16.to_le_bytes());
    bytes.extend_from_slice(&0u16.to_le_bytes());
    bytes.extend_from_slice(b"DIM:");
    bytes.extend_from_slice(&4u32.to_le_bytes());
    bytes.extend_from_slice(&2u16.to_le_bytes());
    bytes.extend_from_slice(&2u16.to_le_bytes());
    bytes.extend_from_slice(b"BIN:");
    bytes.extend_from_slice(&packed_none(&[0x12, 0x34]));

    let scr = Scr::parse(&bytes).unwrap();
    assert_eq!((scr.width, scr.height), (2, 2));
    assert_eq!(scr.pixels, vec![1, 2, 3, 4]);
}

#[test]
fn scr_rejects_wrong_tag() {
    let mut bytes = b"XXX:".to_vec();
    bytes.extend_from_slice(&[0u8; 8]);
    assert!(Scr::parse(&bytes).is_err());
}

#[test]
fn parse_ttm() {
    let mut bytes = Vec::new();
    bytes.extend_from_slice(b"VER:");
    bytes.extend_from_slice(&5u32.to_le_bytes());
    bytes.extend_from_slice(b"1.20\0");
    bytes.extend_from_slice(b"PAG:");
    bytes.extend_from_slice(&3u32.to_le_bytes());
    bytes.extend_from_slice(&[0, 0]);
    bytes.extend_from_slice(b"TT3:");
    bytes.extend_from_slice(&packed_none(&[0xF0, 0x0F, 0x20, 0x10]));
    bytes.extend_from_slice(b"TTI:");
    bytes.extend_from_slice(&[0, 0, 0, 0]);
    bytes.extend_from_slice(b"TAG:");
    bytes.extend_from_slice(&0u32.to_le_bytes());
    bytes.extend_from_slice(&1u16.to_le_bytes());
    bytes.extend_from_slice(&7u16.to_le_bytes());
    bytes.extend_from_slice(b"scene seven\0");

    let ttm = Ttm::parse(&bytes).unwrap();
    assert_eq!(ttm.version, "1.20");
    assert_eq!(ttm.num_pages, 3);
    assert_eq!(ttm.bytecode, vec![0xF0, 0x0F, 0x20, 0x10]);
    assert_eq!(ttm.tags.len(), 1);
    assert_eq!(ttm.tags[0].id, 7);
    assert_eq!(ttm.tags[0].description, "scene seven");
}

#[test]
fn format_errors_name_their_kind() {
    let mut bytes = b"XXX:".to_vec();
    bytes.extend_from_slice(&[0u8; 8]);
    assert!(matches!(Scr::parse(&bytes), Err(DgdsError::BadTag { .. })));

    let archive = vec![0u8; 34];
    assert!(matches!(
        read_entry_header(&archive, 35),
        Err(DgdsError::UnexpectedEof { .. })
    ));
    assert!(matches!(
        read_entry_header(&archive, 20),
        Err(DgdsError::UnexpectedEof { .. })
    ));

    let short = [1u8, 2, 3];
    let mut r = Reader::new(&short);
    assert!(matches!(
        r.expect_tag("test", b"ABC:"),
        Err(DgdsError::UnexpectedEof { .. })
    ));
    assert_eq!(r.position(), 0);

    let other = *b"XYZ:rest";
    let mut r = Reader::new(&other);
    assert_eq!(
        r.expect_tag("test", b"ABC:"),
        Err(DgdsError::BadTag {
            context: "test",
            expected: *b"ABC:",
            found: *b"XYZ:",
        })
    );
    assert_eq!(r.position(), 4);

    let mut block = Vec::new();
    block.extend_from_slice(&4u32.to_le_bytes());
    block.extend_from_slice(&[0u8; 8]);
    let mut r = Reader::new(&block);
    assert!(matches!(read_packed_block(&mut r), Err(DgdsError::Malformed(_))));
}
