use emulator::render_to_image;

fn text_cmd(s: &str) -> Vec<u8> {
    let mut v = vec![0x01u8, s.len() as u8];
    v.extend_from_slice(s.as_bytes());
    v
}

#[test]
fn raster_rendering_is_deterministic() {
    let mut bytes = text_cmd("HELLO WORLD");
    bytes.extend_from_slice(&[0x03, 1]);
    bytes.extend_from_slice(&[0x05, 2, 2, 4, 1, 2, 3, 4]);
    bytes.extend_from_slice(&[0x06, 0, 1, 0xa5]);
    let a = render_to_image(bytes.clone());
    let b = render_to_image(bytes);
    assert_eq!(a.output.len(), 1);
    assert_eq!(b.output.len(), 1);
    assert_eq!(a.output[0].width, b.output[0].width);
    assert_eq!(a.output[0].height, b.output[0].height);
    assert_eq!(a.output[0].bytes, b.output[0].bytes);
}

#[test]
fn text_line_has_the_standard_cell_metrics() {
    let r = render_to_image(text_cmd("A"));
    let img = &r.output[0];
    assert_eq!(img.width, 384);
    assert_eq!(img.height, 16);
    assert_eq!(img.bytes.len(), 384 * 16);
    // The glyph box leaves a one-pixel margin at scale 1.
    assert_eq!(img.bytes[0], 0xff);
    assert_eq!(img.bytes[2 * 384 + 1], 0x00);
    // Space cells stay blank.
    let sp = render_to_image(text_cmd(" "));
    assert!(sp.output[0].bytes.iter().all(|&p| p == 0xff));
}

#[test]
fn bold_fills_the_cell_margin() {
    let plain = render_to_image(text_cmd("A"));
    let mut bytes = vec![0x02u8, 0x01, 1];
    bytes.extend_from_slice(&text_cmd("A"));
    let bold = render_to_image(bytes);
    // At (0, 2) the regular glyph leaves its margin blank; bold paints it.
    assert_eq!(plain.output[0].bytes[2 * 384], 0xff);
    assert_eq!(bold.output[0].bytes[2 * 384], 0x00);
}

#[test]
fn underline_paints_the_bottom_row() {
    let mut bytes = vec![0x02u8, 0x02, 1];
    bytes.extend_from_slice(&text_cmd("A"));
    let r = render_to_image(bytes);
    assert_eq!(r.output[0].bytes[15 * 384], 0x00);
    assert_eq!(r.output[0].bytes[15 * 384 + 8], 0xff);
}

#[test]
fn centered_text_starts_at_the_page_middle() {
    let mut bytes = vec![0x02u8, 0x04, 1];
    bytes.extend_from_slice(&text_cmd("A"));
    let r = render_to_image(bytes);
    let img = &r.output[0];
    // One 8-pixel cell centered on 384 pixels starts at 188.
    assert_eq!(img.bytes[2 * 384 + 189], 0x00);
    assert_eq!(img.bytes[2 * 384 + 1], 0xff);
}

#[test]
fn scale_doubles_the_line_height() {
    let mut bytes = vec![0x02u8, 0x00, 2];
    bytes.extend_from_slice(&text_cmd("A"));
    let r = render_to_image(bytes);
    assert_eq!(r.output[0].height, 32);
}

#[test]
fn image_pixels_are_copied_row_major() {
    let r = render_to_image(vec![0x05, 2, 2, 4, 10, 20, 30, 40]);
    let img = &r.output[0];
    assert_eq!(img.height, 2);
    assert_eq!(img.bytes[0], 10);
    assert_eq!(img.bytes[1], 20);
    assert_eq!(img.bytes[2], 0xff);
    assert_eq!(img.bytes[384], 30);
    assert_eq!(img.bytes[385], 40);
}

#[test]
fn barcode_paints_modules_from_payload_bits() {
    let r = render_to_image(vec![0x06, 0, 1, 0xf0]);
    let img = &r.output[0];
    assert_eq!(img.height, 48);
    // The high nibble of 0xf0 paints the first four 2-pixel modules dark.
    assert_eq!(img.bytes[0], 0x00);
    assert_eq!(img.bytes[7], 0x00);
    assert_eq!(img.bytes[8], 0xff);
    // Columns past the payload stay blank.
    assert_eq!(img.bytes[32], 0xff);
}

#[test]
fn feed_contributes_blank_rows() {
    let r = render_to_image(vec![0x03, 2]);
    let img = &r.output[0];
    assert_eq!(img.height, 32);
    assert!(img.bytes.iter().all(|&p| p == 0xff));
}

#[test]
fn each_job_gets_its_own_canvas() {
    let mut bytes = text_cmd("A");
    bytes.push(0x04);
    bytes.extend_from_slice(&[0x03, 1]);
    let r = render_to_image(bytes);
    assert_eq!(r.output.len(), 2);
    assert_eq!(r.output[0].height, 16);
    assert_eq!(r.output[1].height, 16);
}
