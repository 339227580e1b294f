use malleus::{kernel_digest, module_digest, Digest, KERNEL_DIGEST_SCHEMA, MODULE_DIGEST_SCHEMA};

#[test]
fn blake3_digests_are_lowercase_hex_of_the_hash() {
    let empty = Digest::blake3(b"");
    assert_eq!(empty.algorithm, "blake3");
    assert_eq!(empty.hex, "af1349b9f5f9a1a6a0404dea36dcc9499bcb25c9adc112b7cc9a93cae41f3262");
    let abc = Digest::blake3(b"abc");
    assert_eq!(abc.hex, "6437b3ac38465133ffb63b75273a8db548c558465d79db03fd359c6cd5bd9d85");
    assert_eq!(abc.to_string(), format!("blake3:{}", abc.hex));
}

#[test]
fn kernel_digests_frame_the_kernel_text_with_its_schema() {
    let text = "{\"name\":\"scale\"}";
    let digest = kernel_digest(text);
    let payload = format!("{{\"schema\":\"{KERNEL_DIGEST_SCHEMA}\",\"kernel\":{text}}}");
    assert_eq!(digest, Digest::blake3(payload.as_bytes()));
    assert_ne!(digest, kernel_digest("{\"name\":\"other\"}"));
    assert_eq!(digest, kernel_digest(text));
}

#[test]
fn module_digests_escape_names_and_list_kernel_digests_in_order() {
    let kernels = vec!["{\"k\":1}".to_string(), "{\"k\":2}".to_string()];
    let name = "mod \"one\"\\\n\u{1}é";
    let digest = module_digest(name, &kernels);
    let entries: Vec<String> = kernels
        .iter()
        .map(|text| format!("{{\"algorithm\":\"blake3\",\"hex\":\"{}\"}}", kernel_digest(text).hex))
        .collect();
    let payload = format!(
        "{{\"schema\":\"{MODULE_DIGEST_SCHEMA}\",\"name\":\"mod \\\"one\\\"\\\\\\n\\u0001é\",\"kernels\":[{}]}}",
        entries.join(",")
    );
    assert_eq!(digest, Digest::blake3(payload.as_bytes()));
    let mut swapped = kernels.clone();
    swapped.reverse();
    assert_ne!(module_digest(name, &swapped), digest);
    let empty = module_digest("m", &vec![]);
    let payload = format!("{{\"schema\":\"{MODULE_DIGEST_SCHEMA}\",\"name\":\"m\",\"kernels\":[]}}");
    assert_eq!(empty, Digest::blake3(payload.as_bytes()));
}

#[test]
fn digests_are_sixty_four_lowercase_hex_digits() {
    for digest in [kernel_digest("{}"), module_digest("m", &vec!["{}".to_string()]), Digest::blake3(b"x")] {
        assert_eq!(digest.hex.len(), 64);
        assert!(digest.hex.chars().all(|c| c.is_ascii_digit() || ('a'..='f').contains(&c)));
    }
}
