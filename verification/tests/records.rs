use unified_launcher::config::AppEntry;
use unified_launcher::preview::{load_preview, load_texture, preview_of, Preview};
use unified_launcher::recent::{load_recent, RecentEntry, RecentFile};
use unified_launcher::usage::{full_name_of, json_quote, record_line, record_path, UsageRecord};

const PNG: [u8; 74] = [
    0x89, 0x50, 0x4e, 0x47, 0x0d, 0x0a, 0x1a, 0x0a, 0x00, 0x00, 0x00, 0x0d, 0x49, 0x48, 0x44, 0x52,
    0x00, 0x00, 0x00, 0x02, 0x00, 0x00, 0x00, 0x01, 0x08, 0x06, 0x00, 0x00, 0x00, 0xf4, 0x22, 0x7f,
    0x8a, 0x00, 0x00, 0x00, 0x11, 0x49, 0x44, 0x41, 0x54, 0x78, 0xda, 0x63, 0xf8, 0xcf, 0xc0, 0xf0,
    0x9f, 0x91, 0x89, 0xb9, 0x01, 0x00, 0x0d, 0x8c, 0x02, 0x85, 0x13, 0xdb, 0x9e, 0x56, 0x00, 0x00,
    0x00, 0x00, 0x49, 0x45, 0x4e, 0x44, 0xae, 0x42, 0x60, 0x82,
];

#[test]
fn counts_launches() {
    let mut recent = RecentFile::default();
    let name = "A".to_owned();
    assert_eq!(recent.get(&name), None);
    recent.record(&name, 10);
    recent.record(&"B".to_owned(), 11);
    recent.record(&name, 12);
    assert_eq!(recent.get(&name), Some(RecentEntry { count: 2, last_epoch: 12 }));
    assert_eq!(recent.get(&"B".to_owned()), Some(RecentEntry { count: 1, last_epoch: 11 }));
    assert_eq!(recent.entries.len(), 2);
}

#[test]
fn a_history_that_cannot_be_read_is_empty() {
    assert!(load_recent(None).entries.is_empty());
    let one = RecentEntry { count: 1, last_epoch: 1 };
    let two = RecentEntry { count: 2, last_epoch: 2 };
    let recent = load_recent(Some(vec![("A".to_owned(), one), ("A".to_owned(), two)]));
    assert_eq!(recent.get(&"A".to_owned()), Some(two));
    assert_eq!(recent.entries.len(), 1);
}

#[test]
fn puts_an_entry() {
    let mut recent = RecentFile::from_entries(Vec::new());
    let one = RecentEntry { count: 1, last_epoch: 1 };
    recent.put("A".to_owned(), one);
    assert_eq!(recent.get(&"A".to_owned()), Some(one));
}

#[test]
fn quotes_json() {
    assert_eq!(json_quote("a\"b\\c\n\t\u{1}é"), "\"a\\\"b\\\\c\\u000a\\u0009\\u0001é\"");
    assert_eq!(json_quote(""), "\"\"");
}

#[test]
fn records_a_launch_in_one_line() {
    let u = UsageRecord {
        epoch: 5,
        time: "2024-01-02 03:04:05".to_owned(),
        user: "u".to_owned(),
        full_name: "U \"V\"".to_owned(),
        application: "A\nB".to_owned(),
        category: "c".to_owned(),
        host: "h".to_owned(),
        command: "run".to_owned(),
    };
    let line = record_line(&u);
    assert_eq!(
        line,
        "{\"epoch\":5,\"time\":\"2024-01-02 03:04:05\",\"user\":\"u\",\"full_name\":\"U \\\"V\\\"\",\
         \"application\":\"A\\u000aB\",\"category\":\"c\",\"host\":\"h\",\"command\":\"run\"}\n"
    );
    assert_eq!(line.matches('\n').count(), 1);
    assert_eq!(record_path("/db", "u"), b"/db/records/u.jsonl".to_vec());
}

#[test]
fn a_record_tells_of_its_entry() {
    let a = AppEntry {
        name: "A".to_owned(),
        description: String::new(),
        category: "c".to_owned(),
        section: None,
        command: vec!["run".to_owned(), "fast".to_owned()],
        url: None,
        workdir: None,
        preview: None,
        check_path: None,
        in_terminal: false,
        hold_terminal: false,
        clear_fontconfig: false,
        requires_browser: None,
        tags: Vec::new(),
    };
    let u = a.usage_record(1, "t".to_owned(), "u".to_owned(), "f".to_owned(), "h".to_owned());
    assert_eq!((u.epoch, u.time.as_str(), u.user.as_str()), (1, "t", "u"));
    assert_eq!((u.full_name.as_str(), u.host.as_str()), ("f", "h"));
    assert_eq!((u.application.as_str(), u.category.as_str()), ("A", "c"));
    assert_eq!(u.command, "run fast");
}

#[test]
fn decodes_a_screenshot() {
    let image = load_texture(&PNG.to_vec()).unwrap();
    assert_eq!((image.width, image.height), (2, 1));
    assert_eq!(image.pixels, vec![255, 0, 0, 255, 1, 2, 3, 128]);
}

#[test]
fn a_broken_screenshot_is_missing() {
    assert!(load_texture(&b"no image".to_vec()).is_none());
    assert!(load_texture(&PNG[..20].to_vec()).is_none());
    assert!(matches!(load_preview(&Some(b"no image".to_vec())), Preview::Missing));
    assert!(matches!(load_preview(&None), Preview::Missing));
    assert!(matches!(preview_of(None), Preview::Missing));
}

#[test]
fn a_preview_holds_the_pixels() {
    match load_preview(&Some(PNG.to_vec())) {
        Preview::Loaded(image) => {
            assert_eq!((image.width, image.height), (2, 1));
            assert_eq!(image.pixels, vec![255, 0, 0, 255, 1, 2, 3, 128]);
        }
        Preview::Missing => panic!("the screenshot is missing"),
    }
}

#[test]
fn a_photograph_is_decoded() {
    let pixels = vec![200; 3 * 2 * 3];
    let mut bytes: Vec<u8> = Vec::new();
    image::codecs::jpeg::JpegEncoder::new(&mut bytes)
        .encode(&pixels, 3, 2, image::ExtendedColorType::Rgb8)
        .unwrap();
    let image = load_texture(&bytes).unwrap();
    assert_eq!((image.width, image.height, image.pixels.len()), (3, 2, 24));
    for pixel in image.pixels.chunks_exact(4) {
        assert!(pixel[..3].iter().all(|c| c.abs_diff(200) <= 4));
        assert_eq!(pixel[3], 255);
    }
    match load_preview(&Some(bytes)) {
        Preview::Loaded(again) => assert_eq!(again.pixels, image.pixels),
        Preview::Missing => panic!("the photograph is missing"),
    }
}

#[test]
fn the_full_name_stands_in_the_fifth_field() {
    assert_eq!(full_name_of("u:x:1:2:Ada L,Room 1:/home/u:/bin/sh"), "Ada L");
    assert_eq!(full_name_of("u:x:1:2:Ada"), "Ada");
    assert_eq!(full_name_of("u:x:1:2::/home/u:/bin/sh"), "");
    assert_eq!(full_name_of("u:x:1"), "");
    assert_eq!(full_name_of(""), "");
}

#[test]
fn the_order_of_saved_entries_does_not_count() {
    let mut recent = RecentFile::default();
    recent.record(&"B".to_owned(), 1);
    recent.record(&"A".to_owned(), 2);
    let mut saved = recent.entries.clone();
    saved.sort_by(|a, b| a.0.cmp(&b.0));
    let back = load_recent(Some(saved));
    for name in ["A", "B", "C"] {
        assert_eq!(back.get(&name.to_owned()), recent.get(&name.to_owned()));
    }
}
