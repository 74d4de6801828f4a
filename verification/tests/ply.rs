use martin::ply::{ply_blob, WORDS_PER_SPLAT};

fn cloud(n: usize) -> Vec<[u32; 14]> {
    (0..n)
        .map(|i| {
            let x = i as f32 / n as f32;
            [x, -x, 0.5, -3.9, -3.9, -3.9, 2.44, 1.0, 0.0, 0.0, 0.0, 0.1, 0.2, 0.3].map(f32::to_bits)
        })
        .collect()
}

#[test]
fn ply_blob_has_the_sh0_header_and_stride() {
    let n = 1000;
    let bytes = ply_blob("cube", &cloud(n));
    let header_end = b"end_header\n";
    let hpos = bytes
        .windows(header_end.len())
        .position(|w| w == header_end)
        .expect("end_header present")
        + header_end.len();
    assert!(bytes.starts_with(b"ply\n"));
    // 14 f32 per splat (xyz, scale0..2, opacity, rot wxyz, f_dc0..2)
    assert_eq!(bytes.len() - hpos, n * 14 * 4, "binary body stride");
}

#[test]
fn ply_header_names_the_cloud_and_count() {
    let bytes = ply_blob("tree", &cloud(3));
    let text = String::from_utf8_lossy(&bytes);
    assert!(text.starts_with(
        "ply\nformat binary_little_endian 1.0\ncomment martin demo splat: tree\nelement vertex 3\nproperty float x\n"
    ));
    let hpos = text.find("end_header\n").unwrap() + "end_header\n".len();
    assert_eq!(text[..hpos].matches("property float").count(), WORDS_PER_SPLAT);
    // the first word of the body is splat 0's x, little-endian
    assert_eq!(&bytes[hpos..hpos + 4], &0.0f32.to_le_bytes());
    assert_eq!(&bytes[hpos + 8..hpos + 12], &0.5f32.to_le_bytes());
    let empty = ply_blob("none", &[]);
    assert!(String::from_utf8(empty).unwrap().ends_with("element vertex 0\nproperty float x\nproperty float y\nproperty float z\nproperty float scale_0\nproperty float scale_1\nproperty float scale_2\nproperty float opacity\nproperty float rot_0\nproperty float rot_1\nproperty float rot_2\nproperty float rot_3\nproperty float f_dc_0\nproperty float f_dc_1\nproperty float f_dc_2\nend_header\n"));
}
