use hmac::{KeyInit, Mac};
use sha2::Digest;
use lan_mesh::codec::Message;
use lan_mesh::filedist::{FileInfo, AnnouncedFileIndex, sign_file_meta, verify_file_meta,
    build_file_announcement, BuildError};

fn info(name: &str, uploader: &str, size: u64) -> FileInfo {
    FileInfo {
        filename: name.to_string(),
        file_type: String::from("application/pdf"),
        file_size: size,
        uploader_ip: uploader.to_string(),
        upload_time: String::from("2024-05-01T10:00:00+00:00"),
    }
}

#[test]
fn two_metas_one_entry() {
    let mut index = AnnouncedFileIndex::new();
    index.add_announced_file(info("report.pdf", "192.168.1.2", 1000));
    index.add_announced_file(info("report.pdf", "192.168.1.2", 2222));
    let files = index.get_announced_files();
    assert_eq!(files.len(), 1);
    assert_eq!(files[0].file_size, 1000);
    // A different uploader of the same name is a different file.
    index.add_announced_file(info("report.pdf", "192.168.1.3", 5));
    assert_eq!(index.get_announced_files().len(), 2);
}

#[test]
fn transfer_size_is_of_record_meta_first() {
    let mut index = AnnouncedFileIndex::new();
    // Metadata declares 1000 bytes; the transfer actually carried 900.
    index.add_announced_file(info("report.pdf", "192.168.1.2", 1000));
    index.upsert_announced_file(info("report.pdf", "192.168.1.2", 900));
    let files = index.get_announced_files();
    assert_eq!(files.len(), 1);
    assert_eq!(files[0].file_size, 900);
}

#[test]
fn transfer_size_is_of_record_transfer_first() {
    let mut index = AnnouncedFileIndex::new();
    index.upsert_announced_file(info("report.pdf", "192.168.1.2", 900));
    // The late metadata with its declared size does not displace the count.
    index.add_announced_file(info("report.pdf", "192.168.1.2", 1000));
    let files = index.get_announced_files();
    assert_eq!(files.len(), 1);
    assert_eq!(files[0].file_size, 900);
}

#[test]
fn signature_matches_reference_hmac() {
    let secret = b"shared-secret".to_vec();
    let tag = sign_file_meta(
        &secret,
        &b"report.pdf".to_vec(),
        &b"application/pdf".to_vec(),
        1000,
        &b"aa11".to_vec(),
        &b"2024-05-01T10:00:00+00:00".to_vec(),
    );
    let mut mac = hmac::Hmac::<sha2::Sha256>::new_from_slice(b"shared-secret").unwrap();
    mac.update(b"report.pdf|application/pdf|1000|aa11|2024-05-01T10:00:00+00:00");
    let expected = hex::encode(mac.finalize().into_bytes());
    assert_eq!(tag, expected.as_bytes().to_vec());
}

#[test]
fn verification_ignores_hex_case() {
    let secret = b"s3cret".to_vec();
    let filename = b"a.txt".to_vec();
    let ftype = b"text/plain".to_vec();
    let sha = b"00ff".to_vec();
    let at = b"2024-05-01T10:00:00+00:00".to_vec();
    let tag = sign_file_meta(&secret, &filename, &ftype, 7, &sha, &at);
    let upper: Vec<u8> = tag.iter().map(|b| b.to_ascii_uppercase()).collect();
    assert!(verify_file_meta(&secret, &filename, &ftype, 7, &sha, &at, &upper));
}

#[test]
fn verification_rejects_tampering() {
    let secret = b"s3cret".to_vec();
    let filename = b"a.txt".to_vec();
    let ftype = b"text/plain".to_vec();
    let sha = b"00ff".to_vec();
    let at = b"2024-05-01T10:00:00+00:00".to_vec();
    let tag = sign_file_meta(&secret, &filename, &ftype, 7, &sha, &at);
    // A changed declared size invalidates the tag.
    assert!(!verify_file_meta(&secret, &filename, &ftype, 8, &sha, &at, &tag));
    // So does a wrong secret.
    assert!(!verify_file_meta(&b"other".to_vec(), &filename, &ftype, 7, &sha, &at, &tag));
}

#[test]
fn announcement_carries_hash_signature_and_true_size() {
    let content = b"hello mesh, this is file content".to_vec();
    let secret = Some(b"shared-secret".to_vec());
    let (meta, transfer) = build_file_announcement(
        b"report.pdf".to_vec(),
        b"application/pdf".to_vec(),
        content.clone(),
        &secret,
        b"2024-05-01T10:00:00+00:00".to_vec(),
    )
    .expect("clean fields");
    let sha_hex = hex::encode(sha2::Sha256::digest(&content));
    match meta {
        Message::FileMeta { filename, file_size, sha256_hex, hmac_hex, .. } => {
            assert_eq!(filename, b"report.pdf".to_vec());
            assert_eq!(file_size, content.len() as u64);
            assert_eq!(sha256_hex, sha_hex.as_bytes().to_vec());
            let mut mac =
                hmac::Hmac::<sha2::Sha256>::new_from_slice(b"shared-secret").unwrap();
            let signing = format!(
                "report.pdf|application/pdf|{}|{}|2024-05-01T10:00:00+00:00",
                content.len(),
                sha_hex
            );
            mac.update(signing.as_bytes());
            let expected = hex::encode(mac.finalize().into_bytes());
            assert_eq!(hmac_hex, expected.as_bytes().to_vec());
        }
        _ => panic!("wrong variant"),
    }
    match transfer {
        Message::FileTransfer { file_size, content: c, .. } => {
            assert_eq!(file_size, content.len() as u64);
            assert_eq!(c, content);
        }
        _ => panic!("wrong variant"),
    }
}

#[test]
fn announcement_without_secret_has_empty_signature() {
    let (meta, _) = build_file_announcement(
        b"a.txt".to_vec(),
        b"text/plain".to_vec(),
        b"x".to_vec(),
        &None,
        b"2024-05-01T10:00:00+00:00".to_vec(),
    )
    .expect("clean fields");
    match meta {
        Message::FileMeta { hmac_hex, .. } => assert!(hmac_hex.is_empty()),
        _ => panic!("wrong variant"),
    }
}

#[test]
fn announcement_rejects_delimiter_in_fields() {
    let r = build_file_announcement(
        b"bad|name.txt".to_vec(),
        b"text/plain".to_vec(),
        b"x".to_vec(),
        &None,
        b"2024-05-01T10:00:00+00:00".to_vec(),
    );
    assert_eq!(r.err(), Some(BuildError::DelimiterInField));
}
