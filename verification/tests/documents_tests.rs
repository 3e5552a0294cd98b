use tabdoc::documents::{image, Document, Documents};
use tabdoc::paths;

/// A 1x1 24-bit BMP file, written out by hand: the two header blocks and one
/// padded pixel row.
fn tiny_bmp() -> Vec<u8> {
    let mut b: Vec<u8> = Vec::new();
    // File header: magic, file size 58, reserved, pixel data offset 54.
    b.extend_from_slice(&[0x42, 0x4d]);
    b.extend_from_slice(&58u32.to_le_bytes());
    b.extend_from_slice(&[0, 0, 0, 0]);
    b.extend_from_slice(&54u32.to_le_bytes());
    // Info header: size 40, width 1, height 1, one plane, 24 bits per pixel,
    // no compression, 4 bytes of pixel data, resolution and palette zeroed.
    b.extend_from_slice(&40u32.to_le_bytes());
    b.extend_from_slice(&1i32.to_le_bytes());
    b.extend_from_slice(&1i32.to_le_bytes());
    b.extend_from_slice(&1u16.to_le_bytes());
    b.extend_from_slice(&24u16.to_le_bytes());
    b.extend_from_slice(&0u32.to_le_bytes());
    b.extend_from_slice(&4u32.to_le_bytes());
    b.extend_from_slice(&0u32.to_le_bytes());
    b.extend_from_slice(&0u32.to_le_bytes());
    b.extend_from_slice(&0u32.to_le_bytes());
    b.extend_from_slice(&0u32.to_le_bytes());
    // One blue-ish pixel plus one padding byte.
    b.extend_from_slice(&[200, 100, 50, 0]);
    b
}

#[test]
fn open_twice_keeps_one_entry_and_one_load() {
    let mut d = Documents::new();
    assert!(!d.is_open(&b"a.jpg".to_vec()));
    let first = d.open(b"a.jpg".to_vec());
    assert!(first);
    assert!(d.is_open(&b"a.jpg".to_vec()));
    assert!(matches!(d.get(&b"a.jpg".to_vec()), Some(Document::Loading)));
    let second = d.open(b"a.jpg".to_vec());
    assert!(!second);
    assert!(matches!(d.get(&b"a.jpg".to_vec()), Some(Document::Loading)));
}

#[test]
fn replace_swaps_loading_for_content() {
    let mut d = Documents::new();
    d.open(b"a.jpg".to_vec());
    d.open(b"a.jpg".to_vec());
    let img = image::State { width: 2, height: 1, rgba: vec![0; 8] };
    d.replace(b"a.jpg".to_vec(), Document::Image(img));
    match d.get(&b"a.jpg".to_vec()) {
        Some(Document::Image(s)) => {
            assert_eq!(s.width, 2);
            assert_eq!(s.height, 1);
            assert_eq!(s.rgba.len(), 8);
        }
        _ => panic!("expected the image to replace the placeholder"),
    }
    // Still exactly one entry under that path: the other path stays unknown.
    assert!(!d.is_open(&b"b.jpg".to_vec()));
}

#[test]
fn replace_of_untracked_path_is_noop() {
    let mut d = Documents::new();
    d.replace(b"ghost.bmp".to_vec(), Document::Text("boo".to_string()));
    assert!(!d.is_open(&b"ghost.bmp".to_vec()));
    assert!(d.get(&b"ghost.bmp".to_vec()).is_none());
}

#[test]
fn get_mut_writes_into_the_registry() {
    let mut d = Documents::new();
    d.open(b"a.txt".to_vec());
    match d.get_mut(&b"a.txt".to_vec()) {
        Some(slot) => *slot = Document::Text("hello".to_string()),
        None => panic!("the opened path must be tracked"),
    }
    assert!(matches!(d.get(&b"a.txt".to_vec()), Some(Document::Text(t)) if t == "hello"));
    assert!(d.get_mut(&b"missing.txt".to_vec()).is_none());
}

#[test]
fn load_decodes_bmp_files() {
    let doc = Documents::load(&b"/pics/dot.bmp".to_vec(), &tiny_bmp());
    match doc {
        Some(Document::Image(s)) => {
            assert_eq!(s.width, 1);
            assert_eq!(s.height, 1);
            assert_eq!(s.rgba.len(), 4);
            // The decoder really read the pixel: blue 200, green 100, red 50.
            assert_eq!(&s.rgba[..3], &[50, 100, 200]);
        }
        _ => panic!("expected a decoded image"),
    }
}

#[test]
fn load_rejects_unrecognized_extensions() {
    assert!(Documents::load(&b"notes.txt".to_vec(), &tiny_bmp()).is_none());
    assert!(Documents::load(&b"no_extension".to_vec(), &tiny_bmp()).is_none());
    assert!(Documents::load(&b"archive.tar.gz".to_vec(), &tiny_bmp()).is_none());
}

#[test]
fn load_fails_on_undecodable_bytes() {
    assert!(Documents::load(&b"broken.jpg".to_vec(), &b"not an image".to_vec()).is_none());
    assert!(Documents::load(&b"broken.bmp".to_vec(), &Vec::new()).is_none());
}

#[test]
fn file_names_and_extensions() {
    assert_eq!(paths::file_name(&b"/a/b/c.txt".to_vec()), b"c.txt".to_vec());
    assert_eq!(paths::file_name(&b"c.txt".to_vec()), b"c.txt".to_vec());
    assert_eq!(paths::file_name(&b"/a/b/".to_vec()), b"".to_vec());
    assert_eq!(paths::extension(&b"/a/b/c.txt".to_vec()), Some(b"txt".to_vec()));
    assert_eq!(paths::extension(&b"photo.old.jpg".to_vec()), Some(b"jpg".to_vec()));
    assert_eq!(paths::extension(&b"/etc/.profile".to_vec()), None);
    assert_eq!(paths::extension(&b"noext".to_vec()), None);
    assert_eq!(paths::extension(&b"dir.d/noext".to_vec()), None);
}
