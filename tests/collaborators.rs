use wolong_core::clipboard::{describe_formats, html_fragment, may_retry_open, should_capture, ClipboardSnapshot};
use wolong_core::error::CoreError;
use wolong_core::paths::shell_icon_path;
use wolong_core::pixels::{
    abs_i32_to_u32, clipboard_image_png, dib_to_rgba, encode_as_png, icon_png, parse_bitmap_header, resize_image,
    screenshot_png, swap_red_blue, DibError, DibHeader,
};
use wolong_core::screenshot::monitor_extent;
use wolong_core::text::wide_string;
use wolong_core::window::{format_window_handle, parse_window_handle, paste_strokes, InvalidHandle, KEY_CONTROL, KEY_V};

fn header(width: i32, height: i32, bits: u16, compression: u32) -> Vec<u8> {
    let mut h = Vec::new();
    h.extend_from_slice(&40u32.to_le_bytes());
    h.extend_from_slice(&width.to_le_bytes());
    h.extend_from_slice(&height.to_le_bytes());
    h.extend_from_slice(&1u16.to_le_bytes());
    h.extend_from_slice(&bits.to_le_bytes());
    h.extend_from_slice(&compression.to_le_bytes());
    h.extend_from_slice(&[0u8; 20]);
    h
}

#[test]
fn format_labels() {
    assert_eq!(describe_formats(true, false, false), "text");
    assert_eq!(describe_formats(true, true, true), "text,html,image");
    assert_eq!(describe_formats(false, true, true), "html,image");
    assert_eq!(describe_formats(false, false, false), "unknown");
    let s = ClipboardSnapshot::new(7, 1000, Some("hi".to_string()), None, Some(vec![1]));
    assert_eq!(s.format, "text,image");
    assert_eq!(s.sequence, 7);
}

#[test]
fn watcher_decisions() {
    assert!(should_capture(0, 5));
    assert!(!should_capture(5, 5));
    assert!(!should_capture(3, 0));
    assert!(may_retry_open(4));
    assert!(!may_retry_open(5));
}

#[test]
fn window_handles_as_text() {
    assert_eq!(format_window_handle(0x1A2B), "0000000000001A2B");
    assert_eq!(format_window_handle(u64::MAX), "FFFFFFFFFFFFFFFF");
    assert_eq!(parse_window_handle("0x1a2B"), Ok(Some(0x1A2B)));
    assert_eq!(parse_window_handle(" 0000000000001A2B "), Ok(Some(0x1A2B)));
    assert_eq!(parse_window_handle("+ff"), Ok(Some(255)));
    assert_eq!(parse_window_handle(""), Ok(None));
    assert_eq!(parse_window_handle("0"), Ok(None));
    assert_eq!(parse_window_handle("zz"), Err(InvalidHandle));
    assert_eq!(parse_window_handle("0x"), Err(InvalidHandle));
    assert_eq!(parse_window_handle("10000000000000000"), Err(InvalidHandle));
    assert_eq!(paste_strokes(), vec![(KEY_CONTROL, false), (KEY_V, false), (KEY_V, true), (KEY_CONTROL, true)]);
}

#[test]
fn error_messages() {
    assert_eq!(CoreError::Io("x".to_string()).message(), "io error: x");
    assert_eq!(CoreError::Windows("y".to_string()).message(), "windows api error: y");
    assert_eq!(CoreError::Napi("z".to_string()).message(), "n-api error: z");
    assert_eq!(CoreError::Other("w".to_string()).message(), "w");
}

#[test]
fn magnitudes() {
    assert_eq!(abs_i32_to_u32(-5), 5);
    assert_eq!(abs_i32_to_u32(7), 7);
    assert_eq!(abs_i32_to_u32(i32::MIN), 2147483648);
}

#[test]
fn channel_swap() {
    let mut v = vec![1, 2, 3, 4, 5, 6, 7, 8, 9];
    swap_red_blue(&mut v);
    assert_eq!(v, vec![3, 2, 1, 4, 7, 6, 5, 8, 9]);
}

#[test]
fn nearest_neighbour_resize() {
    let data: Vec<u8> = (0u8..16).collect();
    let out = resize_image(&data, 2, 2, 1, 1).unwrap();
    assert_eq!(out, vec![0, 1, 2, 3]);
    let out = resize_image(&data[..4], 1, 1, 2, 2).unwrap();
    assert_eq!(out, vec![0, 1, 2, 3, 0, 1, 2, 3, 0, 1, 2, 3, 0, 1, 2, 3]);
    let out = resize_image(&data[..4], 2, 2, 2, 1).unwrap();
    assert_eq!(out, vec![0, 1, 2, 3, 0, 0, 0, 0]);
}

#[test]
fn bitmap_header_fields() {
    let h = parse_bitmap_header(&header(3, -2, 24, 0)).unwrap();
    assert_eq!((h.width, h.height, h.bit_count, h.header_size), (3, -2, 24, 40));
    assert_eq!(parse_bitmap_header(&[0u8; 39]).err(), Some(DibError::HeaderTooSmall));
    assert_eq!(parse_bitmap_header(&header(1, 1, 32, 3)).err(), Some(DibError::Compressed(3)));
}

#[test]
fn bitmap_rows_bottom_up_and_top_down() {
    // 1x2, 32-bit, bottom-up: stored rows are bottom first
    let mut data = header(1, 2, 32, 0);
    data.extend_from_slice(&[10, 20, 30, 40, 50, 60, 70, 80]);
    let h = parse_bitmap_header(&data).unwrap();
    assert_eq!(dib_to_rgba(&data, h).unwrap(), vec![70, 60, 50, 80, 30, 20, 10, 40]);
    // 1x1, 24-bit, top-down, rows padded to four bytes
    let mut data = header(1, -1, 24, 0);
    data.extend_from_slice(&[1, 2, 3, 0]);
    let h = parse_bitmap_header(&data).unwrap();
    assert_eq!(dib_to_rgba(&data, h).unwrap(), vec![3, 2, 1, 255]);
    let short = DibHeader { width: 4, height: 4, bit_count: 32, header_size: 40 };
    assert_eq!(dib_to_rgba(&data, short).err(), Some(DibError::BufferTooSmall));
    let mut odd = header(1, 1, 16, 0);
    odd.extend_from_slice(&[0, 0, 0, 0]);
    let h = parse_bitmap_header(&odd).unwrap();
    assert_eq!(dib_to_rgba(&odd, h).err(), Some(DibError::UnsupportedDepth(16)));
}

#[test]
fn png_outputs() {
    let png = encode_as_png(&[255, 0, 0, 255], 1, 1).unwrap();
    assert_eq!(&png[..8], &[0x89, b'P', b'N', b'G', 0x0D, 0x0A, 0x1A, 0x0A]);
    let mut data = header(1, 1, 32, 0);
    data.extend_from_slice(&[1, 2, 3, 4]);
    let png = clipboard_image_png(&data).unwrap();
    assert_eq!(png, encode_as_png(&[3, 2, 1, 4], 1, 1).unwrap());
    assert!(clipboard_image_png(&[1, 2, 3]).is_err());
    let shot = screenshot_png(vec![1, 2, 3, 4], 1, 1).unwrap();
    assert_eq!(shot, encode_as_png(&[3, 2, 1, 4], 1, 1).unwrap());
    let icon = icon_png(vec![9, 8, 7, 6], 1, 1).unwrap();
    let expected: Vec<u8> = [7u8, 8, 9, 6].repeat(48 * 48);
    assert_eq!(icon, encode_as_png(&expected, 48, 48).unwrap());
}

#[test]
fn monitor_extents() {
    assert_eq!(monitor_extent(-1920, 0, 0, 1080), Some((1920, 1080)));
    assert_eq!(monitor_extent(0, 0, 0, 1080), None);
    assert_eq!(monitor_extent(10, 10, 5, 20), None);
}

#[test]
fn html_payload_extraction() {
    let body = "<html>hi</html>";
    let head = "Version:0.9\r\nStartHTML:0000000105\r\nEndHTML:0000000120\r\nStartFragment:0000000105\r\nEndFragment:0000000120\r\n";
    assert_eq!(head.len(), 105);
    let raw = format!("{head}{body}");
    assert_eq!(html_fragment(&raw), body);
    assert_eq!(html_fragment("<b>plain</b>"), "<b>plain</b>");
    let missing = "Version:0.9\r\nStartHTML:5\r\n";
    assert_eq!(html_fragment(missing), missing);
    let bad = "Version:1 StartHTML:x\nEndHTML:y\nStartFragment:\nEndFragment:\n";
    assert_eq!(html_fragment(bad), bad);
}

#[test]
fn shell_paths() {
    let env = vec![("SYSTEMROOT".to_string(), "C:/Windows".to_string())];
    assert_eq!(shell_icon_path(" %SYSTEMROOT%/system32/shell32.dll ,3", &env), "C:\\Windows\\system32\\shell32.dll");
    assert_eq!(wide_string("A\u{e9}"), vec![65, 0xE9, 0]);
    assert_eq!(wide_string("\u{1F600}"), vec![0xD83D, 0xDE00, 0]);
}

#[test]
fn png_for_every_nonempty_image() {
    assert!(encode_as_png(&[], 0, 0).is_err());
    assert!(encode_as_png(&[0; 8], 2, 1).is_ok());
    assert!(screenshot_png(vec![0; 16], 2, 2).is_ok());
    assert!(icon_png(vec![0; 12 * 12 * 4], 12, 12).is_ok());
    let mut data = header(0, 0, 32, 0);
    data.extend_from_slice(&[0, 0, 0, 0]);
    assert!(clipboard_image_png(&data).is_err());
}
