use arca::lantern::thumbs::{
    cache_key, decode_thumb, disk_entry, disk_read, flac_picture, fnv1a, id3_picture,
    picture_bytes, prune_victims, thumb_source, Thumb, ThumbService, ThumbSource, DISK_HEADER, MAX_CACHED,
    MAX_PENDING,
};

/// A valid `width`x`height` PNG.
fn fixture_png(width: u32, height: u32) -> Vec<u8> {
    let mut img = image::RgbaImage::new(width, height);
    for pixel in img.pixels_mut() {
        *pixel = image::Rgba([10, 20, 30, 255]);
    }
    let mut buf = std::io::Cursor::new(Vec::new());
    image::DynamicImage::ImageRgba8(img)
        .write_to(&mut buf, image::ImageFormat::Png)
        .unwrap();
    buf.into_inner()
}

/// `fLaC` + STREAMINFO (34 fake bytes) + one PICTURE block carrying `png`;
/// `truncate` cuts the PICTURE block body short.
fn flac_fixture(png: Option<&[u8]>, truncate: bool) -> Vec<u8> {
    let mut out = b"fLaC".to_vec();
    let solo = png.is_none();
    out.push(if solo { 0x80 } else { 0 });
    out.extend_from_slice(&[0, 0, 34]);
    out.extend_from_slice(&[0u8; 34]);
    if let Some(png) = png {
        let mut body = Vec::new();
        body.extend_from_slice(&3u32.to_be_bytes());
        body.extend_from_slice(&9u32.to_be_bytes());
        body.extend_from_slice(b"image/png");
        body.extend_from_slice(&0u32.to_be_bytes());
        body.extend_from_slice(&8u32.to_be_bytes());
        body.extend_from_slice(&4u32.to_be_bytes());
        body.extend_from_slice(&32u32.to_be_bytes());
        body.extend_from_slice(&0u32.to_be_bytes());
        body.extend_from_slice(&(png.len() as u32).to_be_bytes());
        body.extend_from_slice(png);
        if truncate {
            body.truncate(body.len() / 2);
        }
        out.push(0x80 | 6);
        let len = (body.len() as u32).to_be_bytes();
        out.extend_from_slice(&len[1..]);
        out.extend_from_slice(&body);
    }
    out
}

/// Minimal ID3v2.3 tag with one APIC frame carrying `png`.
fn mp3_fixture(png: &[u8]) -> Vec<u8> {
    let mut frame_body = vec![0u8];
    frame_body.extend_from_slice(b"image/png");
    frame_body.push(0u8);
    frame_body.push(3u8);
    frame_body.push(0u8);
    frame_body.extend_from_slice(png);
    let mut frame = b"APIC".to_vec();
    frame.extend_from_slice(&(frame_body.len() as u32).to_be_bytes());
    frame.extend_from_slice(&[0, 0]);
    frame.extend_from_slice(&frame_body);
    let mut out = b"ID3".to_vec();
    out.extend_from_slice(&[3, 0, 0]);
    let size = frame.len();
    out.extend_from_slice(&[
        ((size >> 21) & 0x7f) as u8,
        ((size >> 14) & 0x7f) as u8,
        ((size >> 7) & 0x7f) as u8,
        (size & 0x7f) as u8,
    ]);
    out.extend_from_slice(&frame);
    out
}

#[test]
fn decodes_plain_png() {
    let thumb = decode_thumb("/photos/cover.png", &fixture_png(8, 4)).expect("png should decode");
    assert_eq!((thumb.width, thumb.height), (128, 64));
    assert_eq!(thumb.rgba.len(), (128 * 64 * 4) as usize);
}

#[test]
fn flac_with_picture_decodes() {
    let bytes = flac_fixture(Some(&fixture_png(8, 4)), false);
    let thumb = decode_thumb("/music/song.flac", &bytes).expect("embedded cover should decode");
    assert!(thumb.width <= 128 && thumb.height <= 128);
    assert_eq!(thumb.width, thumb.height * 2);
}

#[test]
fn flac_without_picture_yields_none() {
    assert!(decode_thumb("/music/song.flac", &flac_fixture(None, false)).is_none());
    assert!(flac_picture(&flac_fixture(None, false)).is_none());
}

#[test]
fn flac_truncated_picture_yields_none() {
    let bytes = flac_fixture(Some(&fixture_png(8, 4)), true);
    assert!(decode_thumb("/music/song.flac", &bytes).is_none());
}

#[test]
fn flac_picture_extracts_exact_bytes() {
    let png = fixture_png(8, 4);
    assert_eq!(flac_picture(&flac_fixture(Some(&png), false)), Some(png));
}

#[test]
fn mp3_with_apic_decodes() {
    let bytes = mp3_fixture(&fixture_png(8, 4));
    let thumb = decode_thumb("/music/song.mp3", &bytes).expect("APIC cover should decode");
    assert_eq!((thumb.width, thumb.height), (128, 64));
}

#[test]
fn mp3_apic_extracts_exact_bytes() {
    let png = fixture_png(3, 3);
    assert_eq!(id3_picture(&mp3_fixture(&png)), Some(png));
}

#[test]
fn mp3_bad_magic_yields_none() {
    assert!(decode_thumb("/music/song.mp3", b"NOT-AN-ID3-TAG").is_none());
    assert!(id3_picture(b"NOT-AN-ID3-TAG").is_none());
}

#[test]
fn unsupported_extension_yields_none() {
    assert!(decode_thumb("/notes/notes.txt", &fixture_png(8, 4)).is_none());
    assert_eq!(thumb_source("/notes/notes.txt"), None);
    assert_eq!(thumb_source("/a/B.JPEG"), Some(ThumbSource::Image));
    assert_eq!(thumb_source("/a/b.Flac"), Some(ThumbSource::Flac));
    assert_eq!(thumb_source("/a/.png"), None);
}

#[test]
fn image_sources_are_used_whole() {
    let bytes = vec![1u8, 2, 3];
    assert_eq!(picture_bytes("/a/b.jpg", &bytes), Some(bytes.clone()));
    assert_eq!(picture_bytes("/a/b.doc", &bytes), None);
}

fn tiny_thumb() -> Thumb {
    Thumb {
        width: 1,
        height: 1,
        rgba: vec![0; 4],
    }
}

#[test]
fn service_roundtrip_and_dedupe() {
    let path = "/photos/photo.png".to_string();
    let mut service = ThumbService::new();
    assert!(service.request(&path));
    assert!(!service.request(&path));
    assert_eq!(service.pending_count(), 1);

    let job = service.take_queued().expect("one job");
    assert_eq!(job, path);
    let thumb = decode_thumb(&job, &fixture_png(8, 4));
    let results = service.drain(vec![(job, thumb)]);
    assert_eq!(results.len(), 1);
    assert_eq!(results[0].0, path);
    assert_eq!((results[0].1.width, results[0].1.height), (128, 64));

    let thumb = service.get(&path).expect("result must be cached");
    assert_eq!(thumb.width, 128);
    assert!(!service.request(&path));
    assert_eq!(service.pending_count(), 0);
}

#[test]
fn service_negative_caching() {
    let path = "/notes/notes.txt".to_string();
    let mut service = ThumbService::new();
    assert!(service.request(&path));
    let job = service.take_queued().unwrap();
    let results = service.drain(vec![(job.clone(), decode_thumb(&job, b"plain text"))]);
    assert!(results.is_empty());
    assert!(service.is_negative(&path));

    assert!(!service.request(&path));
    assert_eq!(service.pending_count(), 0);

    service.clear_pending();
    assert!(!service.is_negative(&path));
    assert!(service.request(&path));
    assert_eq!(service.pending_count(), 1);
}

#[test]
fn service_clear_pending_drops_queue() {
    let path = "/photos/photo.png";
    let mut service = ThumbService::new();
    service.request(path);
    service.clear_pending();
    assert_eq!(service.queued_count(), 0);
    assert_eq!(service.pending_count(), 0);
    assert!(service.request(path));
    assert_eq!(service.pending_count(), 1);
}

#[test]
fn clear_pending_keeps_jobs_being_decoded() {
    let mut service = ThumbService::new();
    service.request("/a.png");
    service.request("/b.png");
    let taken = service.take_queued().unwrap();
    assert_eq!(taken, "/a.png");
    service.clear_pending();
    assert!(service.is_pending("/a.png"));
    assert!(!service.is_pending("/b.png"));
    assert!(!service.request("/a.png"));
}

#[test]
fn pending_overflow_drops_oldest() {
    let mut service = ThumbService::new();
    let total = MAX_PENDING + 4;
    for i in 0..total {
        service.request(&format!("/some/dir/{i}.png"));
    }
    assert_eq!(service.pending_count(), MAX_PENDING);
    assert_eq!(service.queued_count(), MAX_PENDING);
    assert!(service.is_queued("/some/dir/4.png"));
    for i in 0..4 {
        assert!(!service.is_pending(&format!("/some/dir/{i}.png")));
    }
    assert!(service.is_pending(&format!("/some/dir/{}.png", total - 1)));

    service.request("/some/dir/0.png");
    assert!(service.is_pending("/some/dir/0.png"));
    assert!(!service.is_pending("/some/dir/4.png"));
}

#[test]
fn cache_evicts_least_recently_used_over_count_cap() {
    let mut service = ThumbService::new();
    for i in 0..MAX_CACHED {
        service.insert(format!("p{i}"), tiny_thumb());
    }
    assert!(service.get("p0").is_some());
    service.insert("overflow".into(), tiny_thumb());
    assert_eq!(service.cached_count(), MAX_CACHED);
    assert!(service.is_cached("p0"));
    assert!(!service.is_cached("p1"));
    assert!(service.is_cached("overflow"));
}

#[test]
fn cache_evicts_over_byte_cap() {
    let mut service = ThumbService::new();
    let big = || Thumb {
        width: 256,
        height: 256,
        rgba: vec![0; 40 * 1024 * 1024],
    };
    service.insert("a".into(), big());
    service.insert("b".into(), big());
    assert!(!service.is_cached("a"));
    assert!(service.is_cached("b"));
    assert_eq!(service.cached_bytes(), 40 * 1024 * 1024);
}

#[test]
fn reinsert_replaces_entry_and_its_bytes() {
    let mut service = ThumbService::new();
    service.insert("a".into(), tiny_thumb());
    service.insert("a".into(), Thumb { width: 2, height: 1, rgba: vec![1; 8] });
    assert_eq!(service.cached_count(), 1);
    assert_eq!(service.cached_bytes(), 8);
    assert_eq!(service.get("a").unwrap().width, 2);
}

#[test]
fn disk_cache_roundtrip_survives_source_delete() {
    let thumb = Thumb { width: 2, height: 3, rgba: (0..24).collect() };
    let bytes = disk_entry(&thumb, 1000, 77);
    assert_eq!(bytes.len(), DISK_HEADER + 24);
    let back = disk_read(&bytes, Some((1000, 77))).expect("fresh entry");
    assert_eq!((back.width, back.height), (2, 3));
    assert_eq!(back.rgba, thumb.rgba);
    let gone = disk_read(&bytes, None).expect("source gone: entry still served");
    assert_eq!(gone.rgba, thumb.rgba);
}

#[test]
fn disk_cache_invalidates_on_source_change() {
    let thumb = Thumb { width: 1, height: 1, rgba: vec![9, 8, 7, 6] };
    let bytes = disk_entry(&thumb, 1000, 77);
    assert!(disk_read(&bytes, Some((1000, 78))).is_none());
    assert!(disk_read(&bytes, Some((999, 77))).is_none());
}

#[test]
fn corrupt_cache_entry_is_miss_and_replaced() {
    assert!(disk_read(b"garbage-not-a-thumb", None).is_none());
    let thumb = Thumb { width: 1, height: 1, rgba: vec![1, 2, 3, 4] };
    let mut bytes = disk_entry(&thumb, 5, 6);
    bytes.pop();
    assert!(disk_read(&bytes, None).is_none());
    let oversized = Thumb { width: 129, height: 1, rgba: vec![0; 129 * 4] };
    assert!(disk_read(&disk_entry(&oversized, 5, 6), None).is_none());
    let written = disk_entry(&Thumb { width: 128, height: 64, rgba: vec![0; 128 * 64 * 4] }, 1, 2);
    assert_eq!(u32::from_le_bytes(written[0..4].try_into().unwrap()), 128);
    assert_eq!(u32::from_le_bytes(written[4..8].try_into().unwrap()), 64);
    assert_eq!(written.len(), DISK_HEADER + 128 * 64 * 4);
}

#[test]
fn cache_keys_are_two_fnv_hashes_in_hex() {
    assert_eq!(fnv1a(0xcbf2_9ce4_8422_2325, b""), 0xcbf2_9ce4_8422_2325);
    assert_eq!(fnv1a(0xcbf2_9ce4_8422_2325, b"a"), 0xaf63_dc4c_8601_ec8c);
    let key = cache_key("/music/song.flac");
    assert_eq!(key.len(), 32);
    assert!(key.chars().all(|c| c.is_ascii_hexdigit() && !c.is_ascii_uppercase()));
    assert_eq!(key, cache_key("/music/song.flac"));
    assert_ne!(key, cache_key("/music/other.flac"));
    assert_eq!(&cache_key("")[..16], "cbf29ce484222325");
    assert_eq!(&cache_key("")[16..], "84222325cbf29ce4");
}

#[test]
fn janitor_prunes_oldest_entries() {
    let base: u128 = 1_000_000_000_000_000;
    let mtimes: Vec<u128> = (0..20u128).rev().map(|i| base + i).collect();
    let mut victims = prune_victims(&mtimes, 5);
    victims.sort();
    assert_eq!(victims, (5..20).collect::<Vec<usize>>());
    assert!(prune_victims(&mtimes, 20).is_empty());
    assert_eq!(prune_victims(&[7, 3, 7, 1], 2), vec![3, 1]);
}

#[test]
fn get_refreshes_recency_and_keeps_the_cache() {
    let mut service = ThumbService::new();
    for i in 0..MAX_CACHED {
        service.insert(format!("p{i}"), tiny_thumb());
    }
    assert_eq!(service.cached_count(), MAX_CACHED);
    assert!(service.get("p0").is_some());
    assert!(service.get("missing").is_none());
    assert_eq!(service.cached_count(), MAX_CACHED);
    service.insert("extra".to_string(), tiny_thumb());
    assert!(service.is_cached("p0"));
    assert!(!service.is_cached("p1"));
    assert!(service.is_cached("extra"));
}

#[test]
fn clear_pending_keeps_cached_thumbs() {
    let mut service = ThumbService::new();
    service.insert("/kept.png".to_string(), tiny_thumb());
    service.request("/queued.png");
    service.clear_pending();
    assert_eq!(service.get("/kept.png").unwrap().width, 1);
    assert!(!service.is_pending("/queued.png"));
}

#[test]
fn prune_takes_equally_old_files_in_listing_order() {
    assert_eq!(prune_victims(&[5, 5, 5], 1), vec![0, 1]);
    assert_eq!(prune_victims(&[7, 3, 7, 3], 2), vec![1, 3]);
    assert_eq!(prune_victims(&[7, 3, 7, 3], 1), vec![1, 3, 0]);
}
