use bcon::terminal::compose::{compose_frames, ComposeError};
use bcon::terminal::images::{image_byte_size, ImageRegistry, MAX_IMAGE_COUNT};
use bcon::terminal::{AnimationState, TerminalImage};

fn image(id: u32, w: u32, h: u32, fill: u8) -> TerminalImage {
    TerminalImage {
        id,
        width: w,
        height: h,
        data: vec![fill; (w * h * 4) as usize],
        frames: Vec::new(),
        animation_state: AnimationState::Stopped,
        current_frame: 0,
        loop_count: 0,
        current_loop: 0,
    }
}

#[test]
fn inserted_image_is_found_under_its_id() {
    let mut reg = ImageRegistry::new();
    let id = reg.insert(image(5, 2, 2, 9));
    assert_eq!(id, 5);
    assert!(reg.contains(5));
    assert_eq!(reg.get(5).unwrap().data, vec![9; 16]);
    assert_eq!(reg.total_bytes(), 16);
    assert_eq!(reg.next_id(), 6);
    assert_eq!(image_byte_size(reg.get(5).unwrap()), 16);
}

#[test]
fn replacing_an_image_keeps_one_copy() {
    let mut reg = ImageRegistry::new();
    reg.insert(image(1, 1, 1, 0));
    reg.insert(image(1, 2, 1, 7));
    assert_eq!(reg.total_bytes(), 8);
    assert_eq!(reg.get(1).unwrap().width, 2);
}

#[test]
fn image_count_stays_within_the_limit_and_oldest_go_first() {
    let mut reg = ImageRegistry::new();
    for i in 1..=(MAX_IMAGE_COUNT as u32 + 3) {
        reg.insert(image(i, 1, 1, 0));
    }
    let kept = (1..=(MAX_IMAGE_COUNT as u32 + 3)).filter(|i| reg.contains(*i)).count();
    assert_eq!(kept, MAX_IMAGE_COUNT);
    assert!(!reg.contains(1));
    assert!(!reg.contains(3));
    assert!(reg.contains(4));
    assert!(reg.contains(MAX_IMAGE_COUNT as u32 + 3));
}

#[test]
fn removal_and_clear() {
    let mut reg = ImageRegistry::new();
    reg.insert(image(1, 1, 1, 0));
    reg.insert(image(2, 1, 1, 0));
    assert!(reg.remove(1).is_some());
    assert!(reg.remove(1).is_none());
    assert_eq!(reg.total_bytes(), 4);
    reg.clear();
    assert!(!reg.contains(2));
    assert_eq!(reg.total_bytes(), 0);
}

#[test]
fn composing_root_frame_onto_itself_region() {
    let mut img = image(1, 2, 1, 0);
    img.data = vec![1, 2, 3, 4, 5, 6, 7, 8];
    // copy pixel (0,0) over pixel (1,0), replacing
    let r = compose_frames(&mut img, 1, 1, 0, 0, 1, 0, 1, 1, 1);
    assert_eq!(r, Ok(()));
    assert_eq!(img.data, vec![1, 2, 3, 4, 1, 2, 3, 4]);
}

#[test]
fn composing_a_missing_frame_is_refused() {
    let mut img = image(1, 1, 1, 0);
    assert_eq!(compose_frames(&mut img, 3, 1, 0, 0, 0, 0, 1, 1, 1), Err(ComposeError::SourceMissing(3)));
    assert_eq!(compose_frames(&mut img, 1, 4, 0, 0, 0, 0, 1, 1, 1), Err(ComposeError::DestinationMissing(4)));
}
