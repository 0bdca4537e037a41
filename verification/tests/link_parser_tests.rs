use megabasterd_core::link_parser::{detect_mega_links, is_mega_link, try_decrypt_encrypted_link, LinkInfo, MegaLink};

#[test]
fn test_detect_new_file_link() {
    let text = "Download from https://mega.nz/file/ABCDE12345#key_here_base64url ok";
    let links = detect_mega_links(text);
    assert_eq!(links.len(), 1);
    assert!(matches!(&links[0], MegaLink::PublicFile { file_id, key, .. }
        if file_id == "ABCDE12345" && key == "key_here_base64url"));
}

#[test]
fn test_detect_old_file_link() {
    let text = "https://mega.nz/#!fileID123!keyABCDEFG456";
    let links = detect_mega_links(text);
    assert_eq!(links.len(), 1);
    assert!(matches!(&links[0], MegaLink::PublicFile { file_id, key, .. }
        if file_id == "fileID123" && key == "keyABCDEFG456"));
}

#[test]
fn test_detect_folder_link() {
    let text = "https://mega.nz/folder/folderXYZ123#folderKeyABC";
    let links = detect_mega_links(text);
    assert_eq!(links.len(), 1);
    assert!(matches!(&links[0], MegaLink::PublicFolder { folder_id, .. }
        if folder_id == "folderXYZ123"));
}

#[test]
fn test_detect_folder_file_link() {
    let text = "https://mega.nz/folder/folderXYZ123#folderKeyABC/file/fileNodeID";
    let links = detect_mega_links(text);
    assert_eq!(links.len(), 1);
    assert!(matches!(&links[0], MegaLink::FolderFile { file_node_id, .. }
        if file_node_id == "fileNodeID"));
}

#[test]
fn test_is_mega_link() {
    assert!(is_mega_link("check https://mega.nz/file/ID123#KEY456 out"));
    assert!(!is_mega_link("nothing here"));
}

#[test]
fn test_detect_encrypted_link() {
    let text = "mega://enc?AABBCCDD1122";
    let links = detect_mega_links(text);
    assert_eq!(links.len(), 1);
    assert!(matches!(&links[0], MegaLink::EncryptedLink { url }
        if url.starts_with("mega://enc?")));
}

#[test]
fn test_no_false_positives() {
    let text = "Visit https://example.com/notamegalink for info";
    assert!(!is_mega_link(text));
}

#[test]
fn order_kinds_and_duplicates() {
    let text = "a http://mega.nz/#!X1!K1 b https://mega.nz/folder/F#G c http://mega.nz/#!X1!K1 mega://enc2?Zz==";
    let links = detect_mega_links(text);
    assert_eq!(links.len(), 3);
    assert!(matches!(&links[0], MegaLink::PublicFolder { url, key, .. } if url == "https://mega.nz/folder/F#G" && key == "G"));
    assert!(matches!(&links[1], MegaLink::PublicFile { url, .. } if url == "http://mega.nz/#!X1!K1"));
    assert!(matches!(&links[2], MegaLink::EncryptedLink { url } if url == "mega://enc2?Zz=="));
}

#[test]
fn old_folder_with_node_and_incomplete_links() {
    let links = detect_mega_links("https://mega.nz/#F!abc!def!ghi and https://mega.nz/#F!abc! and https://mega.nz/file/#k");
    assert_eq!(links.len(), 1);
    assert!(matches!(&links[0], MegaLink::FolderFile { folder_id, folder_key, file_node_id, .. }
        if folder_id == "abc" && folder_key == "def" && file_node_id == "ghi"));
    assert!(!is_mega_link("mega://enc?"));
    assert!(!is_mega_link("mega://enc2"));
}

#[test]
fn link_info_descriptions() {
    let links = detect_mega_links("https://mega.nz/folder/F1#K1/file/N1 https://mega.nz/file/A#B");
    let info = LinkInfo::from(&links[0]);
    assert_eq!(info.link_type, "folder_file");
    assert_eq!(info.file_id.as_deref(), Some("F1:N1"));
    assert_eq!(info.key.as_deref(), Some("K1"));
    let info2 = LinkInfo::from(&links[1]);
    assert_eq!(info2.link_type, "file");
    assert_eq!(info2.file_id.as_deref(), Some("A"));
    let info3 = LinkInfo::from(&MegaLink::MegaCrypter { url: "x".to_string() });
    assert_eq!(info3.link_type, "megacrypter");
    assert!(info3.file_id.is_none());
}

#[test]
fn decrypting_non_encrypted_links() {
    let link = MegaLink::PublicFile { url: "u".into(), file_id: "a".into(), key: "b".into() };
    assert!(try_decrypt_encrypted_link(&link).is_none());
    let bad = MegaLink::EncryptedLink { url: "mega://enc?AABB".into() };
    assert!(try_decrypt_encrypted_link(&bad).is_none());
}
