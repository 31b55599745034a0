use webarcade::hashing::{calculate_plugin_hash, file_included, to_hex, SourceFile};

fn sf(path: &str, content: &[u8]) -> SourceFile {
    SourceFile { path: path.as_bytes().to_vec(), content: content.to_vec() }
}

fn hex_of(bytes: &[u8]) -> String {
    let mut out = String::new();
    for b in bytes {
        out.push(char::from_digit((b >> 4) as u32, 16).unwrap());
        out.push(char::from_digit((b & 15) as u32, 16).unwrap());
    }
    out
}

#[test]
fn digest_matches_reference_hash() {
    // One included file: the digest must be SHA-256 over path bytes then content.
    let files = vec![sf("mod.rs", b"fn x() {}")];
    let got = calculate_plugin_hash(&files);

    let mut hasher = <sha2::Sha256 as sha2::Digest>::new();
    sha2::Digest::update(&mut hasher, b"mod.rs");
    sha2::Digest::update(&mut hasher, b"fn x() {}");
    let expected = hex_of(sha2::Digest::finalize(hasher).as_slice());
    assert_eq!(got, expected);
}

#[test]
fn to_hex_writes_lower_case_pairs() {
    assert_eq!(to_hex(&[0x00, 0xab, 0xff]), "00abff");
}

#[test]
fn hashing_is_order_invariant() {
    let a = vec![sf("a.rs", b"alpha"), sf("b.rs", b"beta"), sf("c.json", b"{}")];
    let b = vec![sf("c.json", b"{}"), sf("a.rs", b"alpha"), sf("b.rs", b"beta")];
    assert_eq!(calculate_plugin_hash(&a), calculate_plugin_hash(&b));
}

#[test]
fn excluded_files_never_influence_digest() {
    let base = vec![sf("a.rs", b"alpha")];
    let with_noise = vec![
        sf("a.rs", b"alpha"),
        sf("target/debug/a.rs", b"artifact"),
        sf("node_modules/x/y.js", b"dep"),
        sf(".git/config.toml", b"git"),
        sf("Cargo.lock", b"lock"),
        sf("package-lock.json", b"lock"),
        sf("bun.lockb", b"lock"),
        sf("readme.md", b"not a source extension"),
        sf("logo.png", b"binary"),
    ];
    assert_eq!(calculate_plugin_hash(&base), calculate_plugin_hash(&with_noise));
}

#[test]
fn one_byte_change_changes_digest() {
    let a = vec![sf("a.rs", b"alpha"), sf("b.rs", b"beta")];
    let b = vec![sf("a.rs", b"alpha"), sf("b.rs", b"beta ")];
    let c = vec![sf("a.rs", b"alpha"), sf("b.rs", b"betA")];
    assert_ne!(calculate_plugin_hash(&a), calculate_plugin_hash(&b));
    assert_ne!(calculate_plugin_hash(&a), calculate_plugin_hash(&c));
}

#[test]
fn rename_changes_digest() {
    let a = vec![sf("a.rs", b"alpha")];
    let b = vec![sf("b.rs", b"alpha")];
    let c = vec![sf("sub/a.rs", b"alpha")];
    assert_ne!(calculate_plugin_hash(&a), calculate_plugin_hash(&b));
    assert_ne!(calculate_plugin_hash(&a), calculate_plugin_hash(&c));
}

#[test]
fn inclusion_rules() {
    assert!(file_included(&sf("mod.rs", b"")));
    assert!(file_included(&sf("src/view.jsx", b"")));
    assert!(file_included(&sf("style.scss", b"")));
    assert!(file_included(&sf("Cargo.toml", b"")));
    assert!(!file_included(&sf("target/mod.rs", b"")));
    assert!(!file_included(&sf("node_modules/a.js", b"")));
    assert!(!file_included(&sf(".git/a.ts", b"")));
    assert!(!file_included(&sf("Cargo.lock", b"")));
    assert!(!file_included(&sf("package-lock.json", b"")));
    assert!(!file_included(&sf("bun.lockb", b"")));
    assert!(!file_included(&sf("readme.md", b"")));
    assert!(!file_included(&sf(".gitignore", b"")));
    assert!(!file_included(&sf("noextension", b"")));
}
