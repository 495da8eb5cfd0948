use emulator::render_to_html;
use emulator::render_to_image;
use emulator::process_html;
use emulator::RenderConfig;
use emulator::RenderErrorKind;
use emulator::Job;
use emulator::build;
use emulator::decode;
use emulator::segment;

fn text_cmd(s: &str) -> Vec<u8> {
    let mut v = vec![0x01u8, s.len() as u8];
    v.extend_from_slice(s.as_bytes());
    v
}

#[test]
fn empty_stream_yields_no_artifacts_and_no_errors() {
    let r = render_to_html(Vec::new());
    assert_eq!(r.output.len(), 0);
    assert_eq!(r.errors.len(), 0);
    let b = render_to_image(Vec::new());
    assert_eq!(b.output.len(), 0);
    assert_eq!(b.errors.len(), 0);
}

#[test]
fn lone_cut_renders_one_empty_document() {
    let r = render_to_html(vec![0x04]);
    assert_eq!(r.output.len(), 1);
    assert_eq!(r.errors.len(), 0);
    assert_eq!(r.output[0], "<receipt>\n</receipt>");
    let b = render_to_image(vec![0x04]);
    assert_eq!(b.output.len(), 1);
    assert_eq!(b.errors.len(), 0);
    assert_eq!(b.output[0].width, 384);
    assert_eq!(b.output[0].height, 0);
    assert_eq!(b.output[0].bytes.len(), 0);
}

#[test]
fn malformed_job_is_isolated_from_the_rest_of_the_batch() {
    // Text("HELLO"), Cut, Text("WORLD"), Image with a bad payload:
    // job 0 renders, job 1 fails with MalformedPayload at offset 15.
    let mut bytes = text_cmd("HELLO");
    bytes.push(0x04);
    bytes.extend_from_slice(&text_cmd("WORLD"));
    bytes.extend_from_slice(&[0x05, 2, 2, 3, 9, 9, 9]);
    let r = render_to_html(bytes);
    assert_eq!(r.output.len(), 1);
    assert_eq!(r.errors.len(), 1);
    assert!(r.output[0].contains("HELLO"));
    assert_eq!(r.output[0], "<receipt>\n<line>HELLO</line>\n</receipt>");
    assert_eq!(r.errors[0], "MalformedPayload@15");
}

#[test]
fn unknown_only_job_renders_to_an_empty_document() {
    // Silent-skip policy: a lone unrecognized opcode is a valid, empty job.
    let r = render_to_html(vec![0xff]);
    assert_eq!(r.output.len(), 1);
    assert_eq!(r.errors.len(), 0);
    assert_eq!(r.output[0], "<receipt>\n</receipt>");
}

#[test]
fn malformed_barcode_yields_malformed_payload() {
    // An empty barcode payload is malformed.
    let r = render_to_html(vec![0x06, 0, 0]);
    assert_eq!(r.output.len(), 0);
    assert_eq!(r.errors.len(), 1);
    assert_eq!(r.errors[0], "MalformedPayload@0");
}

#[test]
fn unsupported_symbology_yields_malformed_payload() {
    let r = render_to_html(vec![0x06, 9, 1, b'X']);
    assert_eq!(r.errors.len(), 1);
    assert_eq!(r.errors[0], "MalformedPayload@0");
}

#[test]
fn too_tall_document_yields_layout_overflow() {
    // Five feeds of 255 lines at scale 4 exceed the canvas limit.
    let mut bytes = vec![0x02u8, 0x00, 4];
    for _ in 0..5 {
        bytes.extend_from_slice(&[0x03, 255]);
    }
    let b = render_to_image(bytes.clone());
    assert_eq!(b.output.len(), 0);
    assert_eq!(b.errors.len(), 1);
    assert_eq!(b.errors[0], "LayoutOverflow@0");
    // The markup backend has no canvas, so the same job renders there.
    let r = render_to_html(bytes);
    assert_eq!(r.output.len(), 1);
    assert_eq!(r.errors.len(), 0);
}

#[test]
fn artifacts_and_errors_keep_stream_order() {
    // bad, good, bad, good: errors at offsets 0 and 8.
    let mut bytes = vec![0x06u8, 0, 0];
    bytes.push(0x04);
    bytes.extend_from_slice(&text_cmd("A"));
    bytes.push(0x04);
    bytes.extend_from_slice(&[0x06, 0, 0]);
    bytes.push(0x04);
    bytes.extend_from_slice(&text_cmd("B"));
    let r = render_to_html(bytes);
    assert_eq!(r.output.len(), 2);
    assert_eq!(r.errors.len(), 2);
    assert!(r.output[0].contains(">A<"));
    assert!(r.output[1].contains(">B<"));
    assert_eq!(r.errors[0], "MalformedPayload@0");
    assert_eq!(r.errors[1], "MalformedPayload@8");
}

#[test]
fn style_attributes_reach_the_markup() {
    // Bold+underline, centered, scale 2.
    let mut bytes = vec![0x02u8, 0x01 | 0x02 | 0x04, 2];
    bytes.extend_from_slice(&text_cmd("HI"));
    let r = render_to_html(bytes);
    assert_eq!(r.output.len(), 1);
    assert_eq!(r.output[0], "<receipt>\n<line bold underline center x2>HI</line>\n</receipt>");
}

#[test]
fn markup_escapes_metacharacters() {
    let r = render_to_html(text_cmd("a<b>&c"));
    assert_eq!(r.output[0], "<receipt>\n<line>a&lt;b&gt;&amp;c</line>\n</receipt>");
}

#[test]
fn markup_replaces_unprintable_bytes() {
    let r = render_to_html(vec![0x01, 2, 0x07, b'Z']);
    assert_eq!(r.output[0], "<receipt>\n<line>?Z</line>\n</receipt>");
}

#[test]
fn feed_and_image_and_barcode_markup() {
    let mut bytes = vec![0x03u8, 2];
    bytes.extend_from_slice(&[0x05, 2, 1, 2, 7, 8]);
    bytes.extend_from_slice(&[0x06, 1, 2, b'4', b'2']);
    let r = render_to_html(bytes);
    assert_eq!(
        r.output[0],
        "<receipt>\n<feed n=2/>\n<image w=2 h=1/>\n<barcode sym=1>42</barcode>\n</receipt>"
    );
}

#[test]
fn style_changes_do_not_affect_earlier_runs() {
    let mut bytes = text_cmd("A");
    bytes.extend_from_slice(&[0x02, 0x01, 1]);
    bytes.extend_from_slice(&text_cmd("B"));
    let r = render_to_html(bytes);
    assert_eq!(r.output[0], "<receipt>\n<line>A</line>\n<line bold>B</line>\n</receipt>");
}

#[test]
fn long_text_wraps_at_the_page_width() {
    // 49 characters of one token hard-break at 48 columns.
    let token: String = std::iter::repeat('M').take(49).collect();
    let r = render_to_html(text_cmd(&token));
    let expected_first: String = std::iter::repeat('M').take(48).collect();
    assert_eq!(
        r.output[0],
        format!("<receipt>\n<line>{}</line>\n<line>M</line>\n</receipt>", expected_first)
    );
}

#[test]
fn custom_page_width_wraps_earlier() {
    // 33 characters of one token: one line at 48 columns, two at 32.
    let token: String = std::iter::repeat('Q').take(33).collect();
    let narrow = process_html(&text_cmd(&token), &RenderConfig { page_cols: 32 });
    assert_eq!(narrow.output.len(), 1);
    let first: String = std::iter::repeat('Q').take(32).collect();
    assert_eq!(
        narrow.output[0].content,
        format!("<receipt>\n<line>{}</line>\n<line>Q</line>\n</receipt>", first)
    );
    let wide = process_html(&text_cmd(&token), &RenderConfig { page_cols: 48 });
    assert_eq!(
        wide.output[0].content,
        format!("<receipt>\n<line>{}</line>\n</receipt>", token)
    );
}

#[test]
fn build_error_carries_kind_offset_and_message() {
    let mut bytes = text_cmd("X");
    bytes.extend_from_slice(&[0x05, 2, 2, 1, 7]);
    let jobs: Vec<Job> = segment(decode(&bytes));
    assert_eq!(jobs.len(), 1);
    let e = match build(&jobs[0], &RenderConfig::standard()) {
        Err(e) => e,
        Ok(_) => panic!("expected the build to fail"),
    };
    assert_eq!(e.kind, RenderErrorKind::MalformedPayload);
    assert_eq!(e.offset, 3);
    assert_eq!(e.message, "malformed payload");
}
