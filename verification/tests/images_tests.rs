use rpub::images::find_image_srcs;
use rpub::images::image_filename;
use rpub::images::jpeg_mime;
use rpub::images::transform_image;
use rpub::images::ImageRun;
use rpub::images::ADMISSION_CAP;

#[test]
fn scanner_finds_every_src() {
    let html = r#"<p>x</p><img alt="a" src="http://x/a.png"><div><img src="http://x/b.png"/></div>"#;
    let srcs = find_image_srcs(html);
    assert_eq!(srcs, vec!["http://x/a.png".to_string(), "http://x/b.png".to_string()]);
}

#[test]
fn scanner_skips_imageless_tags_and_empty_sources() {
    let html = r#"<img alt="no source"><img src=""><img src="http://x/c.png">"#;
    let srcs = find_image_srcs(html);
    assert_eq!(srcs, vec!["http://x/c.png".to_string()]);
    assert_eq!(find_image_srcs("no images here"), Vec::<String>::new());
}

#[test]
fn image_filename_embeds_stamp_and_index() {
    assert_eq!(image_filename(7, 0), "image_7_0.jpg");
    assert_eq!(image_filename(123, 42), "image_123_42.jpg");
    assert_eq!(jpeg_mime(), "image/jpeg");
}

#[test]
fn duplicate_reference_is_one_unit_and_both_occurrences_rewrite() {
    let html = r#"<img src="http://x/a.png"><p>t</p><img src="http://x/a.png">"#;
    let mut run = ImageRun::new(html, 9);
    assert_eq!(run.unit_count(), 1);
    let (index, reference) = run.next_unit().expect("one unit to admit");
    assert_eq!(index, 0);
    assert_eq!(reference, "http://x/a.png");
    run.complete(0, Some((vec![1, 2, 3], jpeg_mime())));
    let (out, assets) = run.finish();
    assert_eq!(assets.len(), 1);
    assert_eq!(assets[0].filename, "image_9_0.jpg");
    assert_eq!(assets[0].data, vec![1, 2, 3]);
    assert!(!out.contains("http://x/a.png"));
    assert_eq!(out.matches("image_9_0.jpg").count(), 2);
}

#[test]
fn one_failed_fetch_degrades_gracefully() {
    let html = r#"<img src="http://x/good.png"><img src="http://x/bad.png">"#;
    let mut run = ImageRun::new(html, 3);
    assert_eq!(run.unit_count(), 2);
    let (i0, r0) = run.next_unit().unwrap();
    let (i1, r1) = run.next_unit().unwrap();
    assert_eq!((i0, r0.as_str()), (0, "http://x/good.png"));
    assert_eq!((i1, r1.as_str()), (1, "http://x/bad.png"));
    run.complete(0, Some((vec![0xFF], jpeg_mime())));
    run.complete(1, None);
    let (out, assets) = run.finish();
    assert_eq!(assets.len(), 1);
    assert_eq!(assets[0].filename, "image_3_0.jpg");
    assert!(out.contains("image_3_0.jpg"));
    assert!(out.contains("http://x/bad.png"));
    assert!(!out.contains("http://x/good.png"));
}

#[test]
fn admission_never_exceeds_cap() {
    let mut html = String::new();
    for i in 0..200 {
        html.push_str(&format!(r#"<img src="http://x/{}.png">"#, i));
    }
    let mut run = ImageRun::new(&html, 1);
    assert_eq!(run.unit_count(), 200);
    let mut admitted = Vec::new();
    let mut done = 0usize;
    loop {
        while let Some((i, _)) = run.next_unit() {
            admitted.push(i);
            assert!(run.in_flight_now() <= ADMISSION_CAP);
        }
        assert!(run.in_flight_now() <= ADMISSION_CAP);
        if admitted.len() == 200 && run.in_flight_now() == 0 {
            break;
        }
        // Until slots free up, the cap keeps further units out.
        if run.in_flight_now() == ADMISSION_CAP {
            assert!(run.next_unit().is_none());
        }
        let i = admitted[done];
        run.complete(i, None);
        done += 1;
    }
    assert_eq!(done, 200);
}

#[test]
fn transform_rejects_bytes_that_are_no_image() {
    let garbage = vec![0u8, 1, 2, 3, 4];
    assert!(transform_image(&garbage).is_err());
}

#[test]
fn transform_produces_jpeg_from_png() {
    let mut png = Vec::new();
    {
        let img = image::DynamicImage::new_rgb8(900, 1200);
        let mut cursor = std::io::Cursor::new(&mut png);
        img.write_to(&mut cursor, image::ImageFormat::Png).unwrap();
    }
    let out = transform_image(&png).expect("a valid image transforms");
    // JPEG magic bytes.
    assert_eq!(&out[0..2], &[0xFF, 0xD8]);
}

#[test]
fn scanner_accepts_single_quoted_sources() {
    let html = r#"<img src='http://x/sq.png'><img alt='y' src="http://x/dq.png">"#;
    let srcs = find_image_srcs(html);
    assert_eq!(srcs, vec!["http://x/sq.png".to_string(), "http://x/dq.png".to_string()]);
    assert_eq!(find_image_srcs("<img src=''>"), Vec::<String>::new());
}
