use zed_intellij::eula::{acceptance_error, eula_hash, hex_prefix, sha256_hex};

#[test]
fn sha256_of_known_texts() {
    assert_eq!(sha256_hex(b""), "e3b0c44298fc1c149afbf4c8996fb92427ae41e4649b934ca495991b7852b855");
    assert_eq!(sha256_hex(b"abc"), "ba7816bf8f01cfea414140de5dae2223b00361a396177a9cb410ff61f20015ad");
}

#[test]
fn eula_hash_is_the_first_sixteen_hex_characters() {
    assert_eq!(eula_hash("/s/EULA.txt", Ok(b"abc".to_vec())), Ok("ba7816bf8f01cfea".to_string()));
    assert_eq!(
        eula_hash("/s/EULA.txt", Err("No such file or directory".to_string())),
        Err("Cannot read /s/EULA.txt: No such file or directory".to_string())
    );
}

#[test]
fn hex_prefix_takes_whole_bytes() {
    assert_eq!(hex_prefix(&[0x01, 0xab, 0xff], 4), "01ab");
    assert_eq!(hex_prefix(&[0x01, 0xab, 0xff], 5), "01ab");
    assert_eq!(hex_prefix(&[0x01], 10), "01");
    assert_eq!(hex_prefix(&[], 4), "");
}

#[test]
fn acceptance_error_points_to_the_file() {
    let m = acceptance_error("/w/servers/1/EULA.txt");
    assert!(m.contains("Read the agreement at:\n  /w/servers/1/EULA.txt\n\n"), "{m}");
    assert!(m.ends_with(r#""lsp": { "intellij-server": { "settings": { "accept_jetbrains_eula": true } } }"#), "{m}");
}
