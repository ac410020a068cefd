use bcon::terminal::kitty::{
    decode_png, decompress_zlib, finish_loaded, limit_decoded_png, limit_decompressed,
    temp_path_allowed, KittyDecodeResult, KittyDecoder, KittyLoad, MAX_IMAGE_DATA_SIZE,
};
use bcon::terminal::Terminal;
use image::ImageEncoder;
use std::io::Write;

fn zlib(data: &[u8]) -> Vec<u8> {
    let mut enc = flate2::write::ZlibEncoder::new(Vec::new(), flate2::Compression::default());
    enc.write_all(data).unwrap();
    enc.finish().unwrap()
}

fn png_2x1() -> Vec<u8> {
    let pixels: Vec<u8> = vec![255, 0, 0, 255, 0, 0, 255, 128];
    let mut out = Vec::new();
    image::codecs::png::PngEncoder::new(&mut out)
        .write_image(&pixels, 2, 1, image::ColorType::Rgba8)
        .unwrap();
    out
}

#[test]
fn decompress_zlib_round_trip() {
    let packed = zlib(b"hello, kitty");
    assert_ne!(packed, b"hello, kitty".to_vec());
    assert_eq!(decompress_zlib(&packed).unwrap(), b"hello, kitty".to_vec());
}

#[test]
fn decompress_zlib_empty_stream() {
    let packed = zlib(b"");
    assert_eq!(decompress_zlib(&packed).unwrap(), Vec::<u8>::new());
}

#[test]
fn decompress_zlib_rejects_garbage() {
    let err = decompress_zlib(&[0x12, 0x34, 0x56, 0x78, 0x9a]).unwrap_err();
    assert!(err.starts_with("zlib decompress error"));
}

#[test]
fn limit_decompressed_keeps_small_output() {
    assert_eq!(limit_decompressed(Ok(vec![1, 2, 3])), Ok(vec![1, 2, 3]));
}

#[test]
fn limit_decompressed_passes_errors_through() {
    assert_eq!(limit_decompressed(Err("boom".to_string())), Err("boom".to_string()));
}

#[test]
fn limit_decompressed_refuses_one_byte_over() {
    let big = vec![0u8; MAX_IMAGE_DATA_SIZE + 1];
    assert_eq!(
        limit_decompressed(Ok(big)),
        Err("decompressed data too large (max 268435456 bytes)".to_string())
    );
}

#[test]
fn decode_png_gives_rgba_pixels() {
    let (w, h, px) = decode_png(&png_2x1()).unwrap();
    assert_eq!((w, h), (2, 1));
    assert_eq!(px, vec![255, 0, 0, 255, 0, 0, 255, 128]);
}

#[test]
fn decode_png_repairs_bad_checksums() {
    let mut png = png_2x1();
    // The IHDR chunk's CRC sits right after its 13 data bytes.
    let crc_at = 8 + 8 + 13;
    png[crc_at] ^= 0xff;
    png[crc_at + 1] ^= 0x55;
    let (w, h, px) = decode_png(&png).unwrap();
    assert_eq!((w, h), (2, 1));
    assert_eq!(px, vec![255, 0, 0, 255, 0, 0, 255, 128]);
}

#[test]
fn decode_png_rejects_garbage() {
    assert!(decode_png(b"definitely not an image").is_err());
}

#[test]
fn limit_decoded_png_keeps_small_image() {
    assert_eq!(
        limit_decoded_png(Ok((1, 1, vec![9, 8, 7, 6]))),
        Ok((1, 1, vec![9, 8, 7, 6]))
    );
}

#[test]
fn limit_decoded_png_passes_errors_through() {
    assert_eq!(limit_decoded_png(Err("bad".to_string())), Err("bad".to_string()));
}

#[test]
fn limit_decoded_png_refuses_oversized_pixels() {
    let big = vec![0u8; MAX_IMAGE_DATA_SIZE + 1];
    assert_eq!(
        limit_decoded_png(Ok((16385, 4096, big))),
        Err("decoded PNG too large: 16385x4096 = 268435457 bytes (max 268435456)".to_string())
    );
}

fn b64(data: &[u8]) -> String {
    const TBL: &[u8; 64] = b"ABCDEFGHIJKLMNOPQRSTUVWXYZabcdefghijklmnopqrstuvwxyz0123456789+/";
    let mut out = String::new();
    for chunk in data.chunks(3) {
        let b = [chunk[0], *chunk.get(1).unwrap_or(&0), *chunk.get(2).unwrap_or(&0)];
        let n = ((b[0] as u32) << 16) | ((b[1] as u32) << 8) | b[2] as u32;
        out.push(TBL[(n >> 18) as usize & 0x3f] as char);
        out.push(TBL[(n >> 12) as usize & 0x3f] as char);
        out.push(if chunk.len() > 1 { TBL[(n >> 6) as usize & 0x3f] as char } else { '=' });
        out.push(if chunk.len() > 2 { TBL[n as usize & 0x3f] as char } else { '=' });
    }
    out
}

#[test]
fn finish_inflates_zlib_rgba_payload() {
    let pixels: Vec<u8> = vec![1, 2, 3, 4, 5, 6, 7, 8];
    let mut d = KittyDecoder::new();
    let cmd = format!("a=T,f=32,s=2,v=1,o=z,i=7;{}", b64(&zlib(&pixels)));
    d.process(cmd.as_bytes());
    match d.finish(1, false).unwrap() {
        KittyDecodeResult::Image(img) => {
            assert_eq!(img.id, 7);
            assert_eq!((img.width, img.height), (2, 1));
            assert_eq!(img.data, pixels);
        }
        _ => panic!("expected an image"),
    }
}

#[test]
fn finish_zlib_payload_still_needs_a_size() {
    let mut d = KittyDecoder::new();
    let cmd = format!("a=T,f=32,o=z;{}", b64(&zlib(&[1, 2, 3, 4])));
    d.process(cmd.as_bytes());
    assert_eq!(d.finish(1, false).err(), Some("missing width/height for RGBA".to_string()));
}

#[test]
fn finish_decodes_png_payload_with_next_id() {
    let mut d = KittyDecoder::new();
    let cmd = format!("a=T,f=100;{}", b64(&png_2x1()));
    d.process(cmd.as_bytes());
    match d.finish(5, false).unwrap() {
        KittyDecodeResult::Image(img) => {
            assert_eq!(img.id, 5);
            assert_eq!((img.width, img.height), (2, 1));
            assert_eq!(img.data, vec![255, 0, 0, 255, 0, 0, 255, 128]);
        }
        _ => panic!("expected an image"),
    }
}

#[test]
fn finish_rejects_broken_png_payload() {
    let mut d = KittyDecoder::new();
    let cmd = format!("a=T,f=100;{}", b64(b"not a png at all"));
    d.process(cmd.as_bytes());
    assert!(d.finish(1, false).is_err());
}

#[test]
fn finish_loaded_checks_size_and_passes_errors() {
    let mut d = KittyDecoder::new();
    d.process(b"a=T,f=32,s=1,v=1,t=f;L3RtcC94");
    let p = *d.params();
    assert_eq!(
        finish_loaded(&p, 3, Err("failed to read file 'x': gone".to_string())).err(),
        Some("failed to read file 'x': gone".to_string())
    );
    match finish_loaded(&p, 3, Ok(vec![9, 9, 9, 9])).unwrap() {
        KittyDecodeResult::Image(img) => {
            assert_eq!(img.id, 3);
            assert_eq!(img.data, vec![9, 9, 9, 9]);
        }
        _ => panic!("expected an image"),
    }
    assert_eq!(
        finish_loaded(&p, 3, Ok(vec![0u8; MAX_IMAGE_DATA_SIZE + 1])).err(),
        Some("file too large: 268435457 bytes (max 268435456)".to_string())
    );
}

#[test]
fn temp_files_must_resolve_under_tmp_or_dev_shm() {
    assert!(temp_path_allowed(b"/tmp/kitty-img"));
    assert!(temp_path_allowed(b"/dev/shm/x"));
    assert!(!temp_path_allowed(b"/tmp"));
    assert!(!temp_path_allowed(b"/etc/passwd"));
    assert!(!temp_path_allowed(b"/tmpx/a"));
}

#[test]
fn terminal_hands_back_file_transfer_and_completes_it() {
    let mut t = Terminal::new(10, 5);
    t.allow_kitty_remote = true;
    let mut load = None;
    for &b in b"\x1b_Ga=t,f=32,s=1,v=1,i=4,t=f;L3RtcC94\x1b\\" {
        let (_fwd, l) = t.apc_feed(b);
        if l.is_some() {
            load = l;
        }
    }
    let load = load.expect("a read request");
    assert_eq!(load.id, 4);
    match &load.request {
        KittyLoad::File(path) => assert_eq!(path, b"/tmp/x"),
        _ => panic!("expected a file request"),
    }
    t.complete_kitty_load(load, Ok(vec![10, 20, 30, 40]));
    let img = t.images.get(4).expect("stored image");
    assert_eq!((img.width, img.height), (1, 1));
    assert_eq!(img.data, vec![10, 20, 30, 40]);
}

#[test]
fn terminal_refuses_file_transfer_when_not_allowed() {
    let mut t = Terminal::new(10, 5);
    for &b in b"\x1b_Ga=t,f=32,s=1,v=1,i=4,t=f;L3RtcC94\x1b\\" {
        let (_fwd, l) = t.apc_feed(b);
        assert!(l.is_none());
    }
    assert!(t.images.get(4).is_none());
    assert!(String::from_utf8_lossy(&t.pty_response).contains("remote file transfer (t=f) disabled"));
}
