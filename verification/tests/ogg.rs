use maskerad_resource_manager::formats::OggStream;
use maskerad_resource_manager::resource_file::{FileContent, ResourceFile};
use maskerad_resource_manager::resource_manager::ResourceManager;
use maskerad_resource_manager::resource_manager_errors::{DecodeCause, ResourceManagerError};
use maskerad_resource_manager::resource_manager_trait::IResourceManager;
use maskerad_resource_manager::resources::ogg_registry::OggRegistry;
use std::rc::Rc;

/// Packs numbers into bytes the way Vorbis does: the lowest bit first.
struct Bits {
    bits: Vec<bool>,
}

impl Bits {
    fn new() -> Self {
        Bits { bits: Vec::new() }
    }

    fn put(&mut self, value: u32, width: usize) {
        for i in 0..width {
            self.bits.push((value >> i) & 1 == 1);
        }
    }

    fn bytes(&self) -> Vec<u8> {
        self.bits
            .chunks(8)
            .map(|chunk| chunk.iter().enumerate().fold(0u8, |byte, (i, bit)| byte | ((*bit as u8) << i)))
            .collect()
    }
}

fn identification_header(channels: u8, sample_rate: u32) -> Vec<u8> {
    let mut packet = vec![1u8];
    packet.extend_from_slice(b"vorbis");
    packet.extend_from_slice(&0u32.to_le_bytes());
    packet.push(channels);
    packet.extend_from_slice(&sample_rate.to_le_bytes());
    packet.extend_from_slice(&[0u8; 12]);
    packet.push(0xb8);
    packet.push(1);
    packet
}

fn comment_header() -> Vec<u8> {
    let mut packet = vec![3u8];
    packet.extend_from_slice(b"vorbis");
    packet.extend_from_slice(&0u32.to_le_bytes());
    packet.extend_from_slice(&0u32.to_le_bytes());
    packet.push(1);
    packet
}

/// The smallest setup: one codebook of two entries, one floor, one residue, one
/// mapping and one mode.
fn setup_header() -> Vec<u8> {
    let mut bits = Bits::new();
    bits.put(5, 8);
    for letter in b"vorbis".iter() {
        bits.put(*letter as u32, 8);
    }
    bits.put(0, 8);
    // The codebook: sync, dimensions, entries, not ordered, not sparse, two
    // lengths of one, no lookup.
    bits.put(0x564342, 24);
    bits.put(1, 16);
    bits.put(2, 24);
    bits.put(0, 1);
    bits.put(0, 1);
    bits.put(0, 5);
    bits.put(0, 5);
    bits.put(0, 4);
    // One time domain transform, of value zero.
    bits.put(0, 6);
    bits.put(0, 16);
    // One floor of type one without partitions.
    bits.put(0, 6);
    bits.put(1, 16);
    bits.put(0, 5);
    bits.put(0, 2);
    bits.put(0, 4);
    // One residue of type zero with one classification and no book.
    bits.put(0, 6);
    bits.put(0, 16);
    bits.put(0, 24);
    bits.put(0, 24);
    bits.put(0, 24);
    bits.put(0, 6);
    bits.put(0, 8);
    bits.put(0, 3);
    bits.put(0, 1);
    // One mapping with one submap and no coupling.
    bits.put(0, 6);
    bits.put(0, 16);
    bits.put(0, 1);
    bits.put(0, 1);
    bits.put(0, 2);
    bits.put(0, 8);
    bits.put(0, 8);
    bits.put(0, 8);
    // One mode.
    bits.put(0, 6);
    bits.put(0, 1);
    bits.put(0, 16);
    bits.put(0, 16);
    bits.put(0, 8);
    // The framing bit.
    bits.put(1, 1);
    bits.bytes()
}

fn checksum(data: &[u8]) -> u32 {
    let mut crc: u32 = 0;
    for byte in data.iter() {
        crc ^= (*byte as u32) << 24;
        for _ in 0..8 {
            crc = if crc & 0x8000_0000 != 0 { (crc << 1) ^ 0x04c1_1db7 } else { crc << 1 };
        }
    }
    crc
}

fn page(header_type: u8, sequence: u32, packets: &[Vec<u8>]) -> Vec<u8> {
    let mut page = Vec::new();
    page.extend_from_slice(b"OggS");
    page.push(0);
    page.push(header_type);
    page.extend_from_slice(&0u64.to_le_bytes());
    page.extend_from_slice(&0x1234u32.to_le_bytes());
    page.extend_from_slice(&sequence.to_le_bytes());
    page.extend_from_slice(&0u32.to_le_bytes());
    page.push(packets.len() as u8);
    for packet in packets.iter() {
        assert!(packet.len() < 255);
        page.push(packet.len() as u8);
    }
    for packet in packets.iter() {
        page.extend_from_slice(packet);
    }
    let crc = checksum(&page);
    page[22..26].copy_from_slice(&crc.to_le_bytes());
    page
}

fn ogg_stream(channels: u8, sample_rate: u32) -> Vec<u8> {
    let mut stream = page(2, 0, &[identification_header(channels, sample_rate)]);
    stream.extend_from_slice(&page(0, 1, &[comment_header(), setup_header()]));
    stream
}

/// An Ogg Vorbis file as the caller hands it in: with what the decoder made of its bytes.
fn file(path: &str, bytes: Vec<u8>) -> ResourceFile {
    let content = match lewton::inside_ogg::OggStreamReader::new(std::io::Cursor::new(bytes)) {
        Ok(reader) => FileContent::Stream(Rc::new(OggStream { reader })),
        Err(report) => FileContent::Rejected(Rc::new(report)),
    };
    ResourceFile { path: path.to_string(), content: Ok(content) }
}

#[test]
fn ogg_stream_is_decoded_up_to_its_headers() {
    let mut manager = ResourceManager::with_capacity(100, 50);
    let files = vec![file("music/theme.ogg", ogg_stream(1, 44100))];
    assert!(manager.load_resource("music/theme.ogg", &files).is_ok());
    assert!(manager.resource_registry().has_ogg("music/theme.ogg"));
    assert!(!manager.resource_registry().has_gltf("music/theme.ogg"));
    assert!(!manager.resource_registry().has_tga("music/theme.ogg"));
    let stream = manager.resource_registry().get_ogg("music/theme.ogg").unwrap();
    assert_eq!(stream.reader.ident_hdr.audio_channels, 1);
    assert_eq!(stream.reader.ident_hdr.audio_sample_rate, 44100);
    assert_eq!(stream.reader.ident_hdr.blocksize_0, 8);
    assert_eq!(stream.reader.ident_hdr.blocksize_1, 11);
    assert!(stream.reader.comment_hdr.comment_list.is_empty());
}

#[test]
fn ogg_stream_with_a_wrong_checksum_is_rejected() {
    let mut bytes = ogg_stream(2, 48000);
    let last = bytes.len() - 1;
    bytes[last] ^= 0xff;
    let mut manager = ResourceManager::with_capacity(100, 50);
    let done = manager.load_resource("a.ogg", &vec![file("a.ogg", bytes)]);
    match done {
        Err(ResourceManagerError::DecodeError(text, DecodeCause::Ogg(_))) => {
            assert_eq!(text, "Error while dealing with an ogg stream.")
        },
        _ => panic!("a page with a wrong checksum must be rejected"),
    }
    assert!(manager.resource_registry().is_ogg_empty());
}

#[test]
fn ogg_stream_without_channels_is_rejected() {
    let mut manager = ResourceManager::with_capacity(100, 50);
    let done = manager.load_resource("a.ogg", &vec![file("a.ogg", ogg_stream(0, 48000))]);
    assert!(matches!(done, Err(ResourceManagerError::DecodeError(_, DecodeCause::Ogg(_)))));
    let done = manager.load_resource("a.ogg", &vec![file("a.ogg", Vec::new())]);
    assert!(matches!(done, Err(ResourceManagerError::DecodeError(_, DecodeCause::Ogg(_)))));
    assert!(manager.resource_registry().is_ogg_empty());
}

#[test]
fn level_with_music_loads_and_releases_the_stream() {
    let mut manager = ResourceManager::with_capacity(100, 50);
    let files = vec![
        file("theme.ogg", ogg_stream(2, 48000)),
        file("menu.ogg", ogg_stream(1, 22050)),
    ];
    let first = vec!["theme.ogg".to_string(), "menu.ogg".to_string()];
    assert!(manager.load_level_resources(&first, &files).is_ok());
    let theme = manager.resource_registry().get_ogg("theme.ogg").unwrap();
    assert_eq!(theme.reader.ident_hdr.audio_channels, 2);
    assert_eq!(manager.resource_registry().get_ogg("menu.ogg").unwrap().reader.ident_hdr.audio_sample_rate, 22050);
    let second = vec!["theme.ogg".to_string()];
    assert!(manager.load_level_resources(&second, &Vec::new()).is_ok());
    assert!(manager.resource_registry().has_ogg("theme.ogg"));
    assert!(!manager.resource_registry().has_ogg("menu.ogg"));
    assert!(Rc::ptr_eq(&theme, &manager.resource_registry().get_ogg("theme.ogg").unwrap()));
    assert_eq!(manager.refcounts(), vec![("theme.ogg".to_string(), 2)]);
}

#[test]
fn ogg_registry_holds_one_stream_for_a_path() {
    let mut manager = ResourceManager::with_capacity(100, 50);
    assert!(manager.load_resource("a.ogg", &vec![file("a.ogg", ogg_stream(1, 8000))]).is_ok());
    assert!(manager.load_resource("b.ogg", &vec![file("b.ogg", ogg_stream(2, 16000))]).is_ok());
    let a = manager.resource_registry().get_ogg("a.ogg").unwrap();
    let b = manager.resource_registry().get_ogg("b.ogg").unwrap();
    let mut registry = OggRegistry::new();
    assert!(registry.is_empty());
    assert!(registry.insert("x", Rc::clone(&a)).is_none());
    let replaced = registry.insert("x", Rc::clone(&b)).unwrap();
    assert!(Rc::ptr_eq(&replaced, &a));
    assert!(Rc::ptr_eq(registry.get("x").unwrap(), &b));
    assert!(registry.get("y").is_none());
    assert!(Rc::ptr_eq(&registry.remove("x").unwrap(), &b));
    assert!(registry.remove("x").is_none());
    assert!(registry.is_empty());
}
