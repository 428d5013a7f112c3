use crypto::buffer::{ReadBuffer, WriteBuffer};
use m3u8_dl::error::HlsError;
use m3u8_dl::manifest::{analyze, Ext, KeyDescriptor};
use m3u8_dl::pipeline::{
    decrypt, key_location, output_path, pkcs7_unpad, process_segment, segment_location, Download,
    IV,
};

const KEY: &[u8; 16] = b"0123456789abcdef";

fn encrypt(key: &[u8], data: &[u8]) -> Vec<u8> {
    let mut enc = crypto::aes::cbc_encryptor(
        crypto::aes::KeySize::KeySize128,
        key,
        &IV,
        crypto::blockmodes::PkcsPadding,
    );
    let mut out = vec![0u8; data.len() + 32];
    let mut read = crypto::buffer::RefReadBuffer::new(data);
    let mut write = crypto::buffer::RefWriteBuffer::new(&mut out);
    enc.encrypt(&mut read, &mut write, true).unwrap();
    write.take_read_buffer().take_remaining().to_vec()
}

fn encrypt_blocks(key: &[u8], blocks: &[u8]) -> Vec<u8> {
    let mut enc = crypto::aes::cbc_encryptor(
        crypto::aes::KeySize::KeySize128,
        key,
        &IV,
        crypto::blockmodes::NoPadding,
    );
    let mut out = vec![0u8; blocks.len()];
    let mut read = crypto::buffer::RefReadBuffer::new(blocks);
    let mut write = crypto::buffer::RefWriteBuffer::new(&mut out);
    enc.encrypt(&mut read, &mut write, true).unwrap();
    write.take_read_buffer().take_remaining().to_vec()
}

fn ext_with_key(method: &str, uri: &str) -> Ext {
    let mut ext = Ext::new();
    ext.set_key(KeyDescriptor { method: Some(method.to_string()), uri: Some(uri.to_string()) });
    ext
}

#[test]
fn decrypt_round_trip() {
    let plain = b"segment bytes that span more than one block".to_vec();
    let cipher = encrypt(KEY, &plain);
    assert_ne!(cipher, plain);
    assert_eq!(decrypt(KEY, &IV, &cipher), Ok(plain));
}

#[test]
fn decrypt_rejects_wrong_key_size() {
    let cipher = encrypt(KEY, b"abc");
    assert_eq!(decrypt(b"short", &IV, &cipher), Err(HlsError::Crypto));
}

#[test]
fn decrypt_rejects_partial_block() {
    assert_eq!(decrypt(KEY, &IV, &[1, 2, 3]), Err(HlsError::Crypto));
}

#[test]
fn process_segment_without_key_keeps_bytes() {
    assert_eq!(process_segment(None, vec![9, 8, 7]), Ok(vec![9, 8, 7]));
}

#[test]
fn process_segment_with_key_decrypts() {
    let cipher = encrypt(KEY, b"hello");
    assert_eq!(process_segment(Some(KEY), cipher), Ok(b"hello".to_vec()));
}

#[test]
fn key_uri_gate() {
    assert_eq!(Ext::new().key_uri(), None);
    assert_eq!(ext_with_key("", "key.bin").key_uri(), None);
    assert_eq!(ext_with_key("AES-128", "").key_uri(), None);
    assert_eq!(ext_with_key("AES-128", "key.bin").key_uri(), Some("key.bin".to_string()));
    let mut ext = Ext::new();
    ext.set_key(KeyDescriptor { method: Some("AES-128".to_string()), uri: None });
    assert_eq!(ext.key_uri(), None);
}

#[test]
fn locations_are_joined() {
    assert_eq!(segment_location("http://h/p", "s1.ts"), "http://h/p/s1.ts");
    assert_eq!(key_location("http://h/", "key.bin"), "http://h/key.bin");
    assert_eq!(output_path("/tmp", "index", ".ts"), "/tmp/index.ts");
}

#[test]
fn plain_run_writes_segments_in_order_unchanged() {
    let mut ext = Ext::new();
    analyze(&mut ext, "#EXT-X-KEY:METHOD=,URI=\"k\"\na.ts\nb.ts".to_string(), ".ts").unwrap();
    let mut d = Download::new(&ext, "http://h");
    assert_eq!(d.next_request(), Some("http://h/a.ts".to_string()));
    assert_eq!(d.on_response(Some(vec![1, 2])), Ok(vec![1, 2]));
    assert_eq!(d.progress(), (1, 2));
    assert_eq!(d.next_request(), Some("http://h/b.ts".to_string()));
    assert_eq!(d.on_response(Some(vec![3])), Ok(vec![3]));
    assert_eq!(d.progress(), (2, 2));
    assert_eq!(d.next_request(), None);
}

#[test]
fn encrypted_run_fetches_key_first() {
    let mut ext = Ext::new();
    analyze(&mut ext, "#EXT-X-KEY:METHOD=AES-128,URI=\"key.bin\"\nx.ts".to_string(), ".ts").unwrap();
    let mut d = Download::new(&ext, "http://h/");
    assert_eq!(d.next_request(), Some("http://h/key.bin".to_string()));
    assert_eq!(d.on_response(Some(KEY.to_vec())), Ok(vec![]));
    assert_eq!(d.next_request(), Some("http://h//x.ts".to_string()));
    let cipher = encrypt(KEY, b"media");
    assert_eq!(d.on_response(Some(cipher)), Ok(b"media".to_vec()));
    assert_eq!(d.next_request(), None);
}

#[test]
fn failed_fetch_ends_the_run() {
    let mut ext = Ext::new();
    analyze(&mut ext, "a.ts\nb.ts\nc.ts".to_string(), ".ts").unwrap();
    let mut d = Download::new(&ext, "h");
    assert_eq!(d.on_response(Some(vec![1])), Ok(vec![1]));
    assert_eq!(d.on_response(None), Err(HlsError::Network));
    assert_eq!(d.next_request(), None);
    assert_eq!(d.progress(), (1, 3));
}

#[test]
fn bad_segment_ends_encrypted_run() {
    let ext = ext_with_key("AES-128", "k");
    let mut ext = ext;
    ext.set_uri_list("a.ts".to_string());
    ext.set_uri_list("b.ts".to_string());
    let mut d = Download::new(&ext, "h");
    assert_eq!(d.on_response(Some(KEY.to_vec())), Ok(vec![]));
    assert_eq!(d.on_response(Some(vec![0; 5])), Err(HlsError::Crypto));
    assert_eq!(d.next_request(), None);
}

#[test]
fn decrypt_rejects_padding_byte_above_block_size() {
    let cipher = encrypt_blocks(KEY, &[0x20; 16]);
    assert_eq!(cipher.len(), 16);
    assert_eq!(decrypt(KEY, &IV, &cipher), Err(HlsError::Crypto));
}

#[test]
fn decrypt_rejects_zero_padding_byte() {
    let mut block = [7u8; 16];
    block[15] = 0;
    let cipher = encrypt_blocks(KEY, &block);
    assert_eq!(decrypt(KEY, &IV, &cipher), Err(HlsError::Crypto));
}

#[test]
fn decrypt_rejects_empty_input() {
    assert_eq!(decrypt(KEY, &IV, &[]), Err(HlsError::Crypto));
}

#[test]
fn decrypt_accepts_full_padding_block() {
    let mut blocks = b"0123456789ABCDEF".to_vec();
    blocks.extend_from_slice(&[16u8; 16]);
    let cipher = encrypt_blocks(KEY, &blocks);
    assert_eq!(decrypt(KEY, &IV, &cipher), Ok(b"0123456789ABCDEF".to_vec()));
}

#[test]
fn pkcs7_unpad_cases() {
    assert_eq!(pkcs7_unpad(&[1, 2, 3, 2, 2]), Some(vec![1, 2, 3]));
    assert_eq!(pkcs7_unpad(&[4, 4, 4, 4]), Some(vec![]));
    assert_eq!(pkcs7_unpad(&[1, 2, 3, 3, 2]), None);
    assert_eq!(pkcs7_unpad(&[5, 5, 5]), None);
    assert_eq!(pkcs7_unpad(&[9, 0]), None);
    assert_eq!(pkcs7_unpad(&[17; 17]), None);
    assert_eq!(pkcs7_unpad(&[]), None);
}
