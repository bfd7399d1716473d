use spindle::digest::Hashing;
use spindle::hex::to_hex;

#[test]
fn the_digest_of_a_text_is_known() {
    let mut h = Hashing::new();
    h.feed(b"abc");
    assert_eq!(to_hex(&h.digest()), "ba7816bf8f01cfea414140de5dae2223b00361a396177a9cb410ff61f20015ad");
    assert_eq!(
        to_hex(&Hashing::new().digest()),
        "e3b0c44298fc1c149afbf4c8996fb92427ae41e4649b934ca495991b7852b855"
    );
}

#[test]
fn it_does_not_matter_how_a_file_is_cut() {
    let bytes: Vec<u8> = (0..=255).cycle().take(5000).collect();
    let mut whole = Hashing::new();
    whole.feed(&bytes);
    let mut cut = Hashing::new();
    for piece in bytes.chunks(97) {
        cut.feed(piece);
    }
    assert_eq!(whole.digest(), cut.digest());
}
