use mermaid_inline::display::{apc_frames, clear_inline, show_inline_frames, CHUNK_SIZE};

#[test]
fn clear_is_the_fixed_delete_all_message() {
    assert_eq!(clear_inline(), "\x1b_Ga=d,d=A;\x1b\\");
}

#[test]
fn clear_with_nothing_displayed_is_the_same_message_and_never_errors() {
    let first = clear_inline();
    let second = clear_inline();
    assert_eq!(first, second);
    // The message carries no payload: nothing between the keys and the terminator.
    assert!(first.ends_with(";\x1b\\"));
}

#[test]
fn small_image_is_one_frame_with_real_base64() {
    let frames = show_inline_frames(b"Man");
    assert_eq!(frames.len(), 1);
    assert_eq!(frames[0], "\x1b_Ga=T,f=100,t=d,m=0;TWFu\x1b\\");
}

#[test]
fn empty_payload_yields_no_frames() {
    let frames = apc_frames("");
    assert!(frames.is_empty());
    let from_image = show_inline_frames(b"");
    assert!(from_image.is_empty());
}

#[test]
fn payload_of_exactly_one_chunk_is_one_final_frame() {
    let payload: String = "A".repeat(CHUNK_SIZE);
    let frames = apc_frames(&payload);
    assert_eq!(frames.len(), 1);
    assert!(frames[0].starts_with("\x1b_Ga=T,f=100,t=d,m=0;"));
}

#[test]
fn chunk_count_is_length_ceiling_and_flags_mark_the_last() {
    let payload: String = "B".repeat(2 * CHUNK_SIZE + 5);
    let frames = apc_frames(&payload);
    assert_eq!(frames.len(), 3);
    assert!(frames[0].starts_with("\x1b_Ga=T,f=100,t=d,m=1;"));
    assert!(frames[1].starts_with("\x1b_Gm=1;"));
    assert!(frames[2].starts_with("\x1b_Gm=0;"));
    for f in &frames {
        assert!(f.ends_with("\x1b\\"));
    }
}

#[test]
fn concatenated_frame_payloads_reconstruct_the_encoded_text() {
    let payload: String = "C".repeat(CHUNK_SIZE + 17);
    let frames = apc_frames(&payload);
    let mut rebuilt = String::new();
    for f in &frames {
        let inner = f.strip_prefix("\x1b_G").unwrap();
        let inner = inner.strip_suffix("\x1b\\").unwrap();
        let (_keys, chunk) = inner.split_once(';').unwrap();
        rebuilt.push_str(chunk);
    }
    assert_eq!(rebuilt, payload);
}

#[test]
fn image_of_8200_bytes_spans_several_chunks() {
    let image = vec![7u8; 8200];
    // 8200 bytes encode to 4 * ceil(8200 / 3) = 10936 base64 characters,
    // more than two chunks' worth.
    let frames = show_inline_frames(&image);
    assert!(frames.len() >= 2);
    assert_eq!(frames.len(), 3);
    assert!(frames[0].starts_with("\x1b_Ga=T,f=100,t=d,m=1;"));
    assert!(frames[1].starts_with("\x1b_Gm=1;"));
    assert!(frames[2].starts_with("\x1b_Gm=0;"));
}
