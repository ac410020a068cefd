use bcon::terminal::kitty::{
    base64_decode, make_response, KittyAction, KittyDecodeResult, KittyDecoder, KittyFormat,
    KittyTransmission,
};

fn b64_encode(data: &[u8]) -> String {
    const TBL: &[u8; 64] = b"ABCDEFGHIJKLMNOPQRSTUVWXYZabcdefghijklmnopqrstuvwxyz0123456789+/";
    let mut out = String::with_capacity((data.len() + 2) / 3 * 4);
    let mut i = 0;
    while i + 3 <= data.len() {
        let n = ((data[i] as u32) << 16) | ((data[i + 1] as u32) << 8) | data[i + 2] as u32;
        out.push(TBL[((n >> 18) & 0x3f) as usize] as char);
        out.push(TBL[((n >> 12) & 0x3f) as usize] as char);
        out.push(TBL[((n >> 6) & 0x3f) as usize] as char);
        out.push(TBL[(n & 0x3f) as usize] as char);
        i += 3;
    }
    let rem = data.len() - i;
    if rem == 1 {
        let n = (data[i] as u32) << 16;
        out.push(TBL[((n >> 18) & 0x3f) as usize] as char);
        out.push(TBL[((n >> 12) & 0x3f) as usize] as char);
        out.push_str("==");
    } else if rem == 2 {
        let n = ((data[i] as u32) << 16) | ((data[i + 1] as u32) << 8);
        out.push(TBL[((n >> 18) & 0x3f) as usize] as char);
        out.push(TBL[((n >> 12) & 0x3f) as usize] as char);
        out.push(TBL[((n >> 6) & 0x3f) as usize] as char);
        out.push('=');
    }
    out
}

#[test]
fn chunked_base64_with_per_chunk_padding_decodes_exact() {
    let w = 32u32;
    let h = 16u32;
    let pixel_count = (w * h) as usize;
    let rgba: Vec<u8> = (0..pixel_count * 4).map(|i| (i & 0xff) as u8).collect();
    assert_eq!(rgba.len(), 32 * 16 * 4);

    let chunk_bytes = 512;
    let chunks: Vec<&[u8]> = rgba.chunks(chunk_bytes).collect();
    let num_chunks = chunks.len();
    assert!(num_chunks >= 2);

    let mut decoder = KittyDecoder::new();
    let first = format!("a=T,f=32,s={},v={},m=1", w, h);
    decoder.process(first.as_bytes());

    for (i, chunk) in chunks.iter().enumerate() {
        let more = if i + 1 < num_chunks { 1 } else { 0 };
        let body = format!("m={};{}", more, b64_encode(chunk));
        decoder.process(body.as_bytes());
    }

    let result = decoder.finish(1, false).expect("decode");
    match result {
        KittyDecodeResult::Image(img) => {
            assert_eq!(img.width, w);
            assert_eq!(img.height, h);
            assert_eq!(img.data.len(), rgba.len());
            assert_eq!(img.data, rgba);
        }
        _ => panic!("expected Image result"),
    }
}

#[test]
fn rgb_size_mismatch_tolerant() {
    let w = 100u32;
    let h = 100u32;
    let expected_rgb = (w * h * 3) as usize;
    let short_by = 720usize;
    let actual_rgb = expected_rgb - short_by;

    let rgb_data: Vec<u8> = (0..actual_rgb).map(|i| (i & 0xff) as u8).collect();
    let b64 = b64_encode(&rgb_data);

    let mut decoder = KittyDecoder::new();
    let first = format!("a=T,f=24,s={},v={},m=0;{}", w, h, b64);
    decoder.process(first.as_bytes());

    let result = decoder.finish(1, false);
    assert!(result.is_ok(), "should not reject short RGB data");
    match result.unwrap() {
        KittyDecodeResult::Image(img) => {
            assert_eq!(img.width, w);
            assert_eq!(img.height, h);
            assert_eq!(img.data.len(), (w * h * 4) as usize);
        }
        _ => panic!("expected Image result"),
    }
}

#[test]
fn base64_stray_bytes_tolerated() {
    let data = vec![0xFFu8; 12];
    let mut b64 = b64_encode(&data);
    b64.insert(4, '\t');
    b64.insert(8, '\0' as char);

    let decoded = base64_decode(b64.as_bytes());
    assert!(decoded.is_some(), "should not abort on stray bytes");
    assert_eq!(decoded.unwrap(), data);
}

#[test]
fn params_parsed_from_first_chunk_only() {
    let mut decoder = KittyDecoder::new();
    let (done, resp) = decoder.process(b"a=p,i=7,c=3,r=2,z=-4,t=f,o=z,m=1");
    assert!(!done);
    assert!(resp.is_none());
    let p = decoder.params();
    assert_eq!(p.action, KittyAction::Display);
    assert_eq!(p.id, 7);
    assert_eq!(p.cols, 3);
    assert_eq!(p.rows, 2);
    assert_eq!(p.frame_number, 2);
    assert_eq!(p.z_index, -4);
    assert_eq!(p.gap, -4);
    assert_eq!(p.transmission, KittyTransmission::File);
    assert_eq!(p.compression, Some('z'));
    // later chunks only update m
    let (done, _) = decoder.process(b"a=d,i=9,m=0");
    assert!(done);
    assert_eq!(decoder.params().action, KittyAction::Display);
    assert_eq!(decoder.params().id, 7);
}

#[test]
fn invalid_numbers_default_to_zero() {
    let mut decoder = KittyDecoder::new();
    decoder.process(b"i=99999999999,s=+12,v=abc,f=100,q=300");
    let p = decoder.params();
    assert_eq!(p.id, 0);
    assert_eq!(p.width, 12);
    assert_eq!(p.height, 0);
    assert_eq!(p.format, KittyFormat::Png);
    assert_eq!(p.quiet, 0);
}

#[test]
fn delete_action_is_an_error() {
    let mut decoder = KittyDecoder::new();
    decoder.process(b"a=d,d=a");
    assert_eq!(decoder.params().delete_target, Some('a'));
    assert_eq!(decoder.finish(1, false).err().unwrap(), "delete action");
}

#[test]
fn compose_and_animation_commands() {
    let mut decoder = KittyDecoder::new();
    decoder.process(b"a=c,r=2,X=5,Y=6,x=7,y=8,s=9,v=10,C=1");
    match decoder.finish(42, false).unwrap() {
        KittyDecodeResult::Compose(c) => {
            assert_eq!(c.image_id, 42);
            assert_eq!(c.src_frame, 2);
            assert_eq!(c.src_x, 5);
            assert_eq!(c.src_y, 6);
            assert_eq!(c.dst_x, 7);
            assert_eq!(c.dst_y, 8);
            assert_eq!(c.width, 9);
            assert_eq!(c.height, 10);
            assert_eq!(c.compose_mode, 1);
        }
        _ => panic!("expected compose"),
    }
    let mut decoder = KittyDecoder::new();
    decoder.process(b"a=a,i=3,s=3,v=5,z=100");
    match decoder.finish(42, false).unwrap() {
        KittyDecodeResult::Animation(a) => {
            assert_eq!(a.image_id, 3);
            assert_eq!(a.state, 3);
            assert_eq!(a.loop_count, 5);
            assert_eq!(a.gap, 100);
        }
        _ => panic!("expected animation"),
    }
}

#[test]
fn remote_transmission_refused_unless_allowed() {
    let mut decoder = KittyDecoder::new();
    decoder.process(b"a=T,t=f;L3RtcC94");
    let err = decoder.finish(1, false).err().unwrap();
    assert!(err.starts_with("remote file transfer (t=f) disabled."));
}

#[test]
fn rgba_missing_size_and_padding() {
    let mut decoder = KittyDecoder::new();
    decoder.process(b"a=T,f=32;AAAA");
    assert_eq!(decoder.finish(1, false).err().unwrap(), "missing width/height for RGBA");
    let mut decoder = KittyDecoder::new();
    decoder.process(b"a=f,s=1,v=2,r=3;AQID");
    match decoder.finish(5, false).unwrap() {
        KittyDecodeResult::Frame(f) => {
            assert_eq!(f.image_id, 5);
            assert_eq!(f.frame_number, 3);
            assert_eq!(f.gap, 40);
            assert_eq!(f.data, vec![1, 2, 3, 0, 0, 0, 0, 0]);
        }
        _ => panic!("expected frame"),
    }
}

#[test]
fn response_format() {
    assert_eq!(make_response(12, true, "ignored"), b"\x1b_Gi=12;OK\x1b\\".to_vec());
    assert_eq!(make_response(0, false, "ENOENT"), b"\x1b_Gi=0;ENOENT\x1b\\".to_vec());
}
