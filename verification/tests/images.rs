use markpad::image::{created_at, image_file_name, ImageInfo};
use markpad::listing::{list_images, DirectoryEntry, EntryMetadata};

fn file(name: &str, len: u64) -> DirectoryEntry {
    DirectoryEntry {
        file_name: name.to_string(),
        path: format!("/data/images/{}", name),
        metadata: Some(EntryMetadata { is_file: true, len }),
    }
}

fn names(images: &[ImageInfo]) -> Vec<String> {
    images.iter().map(|image| image.filename.clone()).collect()
}

fn std_created_at(filename: &str) -> u64 {
    filename.split('.').next().and_then(|s| s.parse::<u64>().ok()).unwrap_or(0)
}

#[test]
fn listing_puts_newest_first() {
    let entries = vec![file("100.png", 1), file("300.png", 2), file("200.png", 3)];
    let images = list_images(&entries);
    let times: Vec<u64> = images.iter().map(|image| image.created_at).collect();
    assert_eq!(times, vec![300u64, 200u64, 100u64]);
    assert_eq!(names(&images), vec!["300.png", "200.png", "100.png"]);
}

#[test]
fn listing_reports_each_field() {
    let images = list_images(&vec![file("1700000000000.jpeg", 4096)]);
    assert_eq!(
        images,
        vec![ImageInfo {
            filename: "1700000000000.jpeg".to_string(),
            path: "/data/images/1700000000000.jpeg".to_string(),
            size: 4096,
            created_at: 1700000000000,
        }]
    );
}

#[test]
fn listing_of_nothing_is_empty() {
    assert_eq!(list_images(&Vec::new()), Vec::<ImageInfo>::new());
}

#[test]
fn listing_keeps_enumeration_order_among_equal_times() {
    let entries = vec![
        file("5.png", 1),
        file("7.a", 2),
        file("5.jpg", 3),
        file("note.txt", 4),
        file("7.b", 5),
        file("readme", 6),
        file("5.gif", 7),
    ];
    let images = list_images(&entries);
    assert_eq!(
        names(&images),
        vec!["7.a", "7.b", "5.png", "5.jpg", "5.gif", "note.txt", "readme"]
    );
    let mut expected: Vec<ImageInfo> = entries
        .iter()
        .map(|entry| ImageInfo {
            filename: entry.file_name.clone(),
            path: entry.path.clone(),
            size: entry.metadata.unwrap().len,
            created_at: std_created_at(&entry.file_name),
        })
        .collect();
    expected.sort_by(|a, b| b.created_at.cmp(&a.created_at));
    assert_eq!(images, expected);
}

#[test]
fn listing_skips_directories_and_unreadable_entries() {
    let entries = vec![
        DirectoryEntry {
            file_name: "900".to_string(),
            path: "/data/images/900".to_string(),
            metadata: Some(EntryMetadata { is_file: false, len: 4096 }),
        },
        file("10.png", 10),
        DirectoryEntry {
            file_name: "800.png".to_string(),
            path: "/data/images/800.png".to_string(),
            metadata: None,
        },
        file("20.png", 20),
    ];
    let images = list_images(&entries);
    assert_eq!(names(&images), vec!["20.png", "10.png"]);
    assert_eq!(images[0].size, 20);
    assert_eq!(images[1].size, 10);
}

#[test]
fn saved_image_shows_up_as_one_new_record() {
    let mut entries = vec![file("100.png", 1), file("300.png", 2)];
    let before = list_images(&entries);
    let name = image_file_name(250, "webp");
    entries.push(file(&name, 77));
    let after = list_images(&entries);
    assert_eq!(after.len(), before.len() + 1);
    let added: Vec<&ImageInfo> = after.iter().filter(|image| !before.contains(image)).collect();
    assert_eq!(added.len(), 1);
    assert_eq!(added[0].size, 77);
    assert_eq!(added[0].created_at, 250);
    assert_eq!(names(&after), vec!["300.png", "250.webp", "100.png"]);
}

#[test]
fn saved_image_is_one_new_record_wherever_it_is_enumerated() {
    let entries = vec![file("5.a", 1), file("9.b", 2), file("5.c", 3), file("x", 4), file("5.d", 5)];
    let before = list_images(&entries);
    let name = image_file_name(5, "new");
    for at in 0..=entries.len() {
        let mut with_new = entries.clone();
        with_new.insert(at, file(&name, 77));
        let after = list_images(&with_new);
        assert_eq!(after.len(), before.len() + 1);
        let places: Vec<usize> =
            (0..after.len()).filter(|i| after[*i].path == "/data/images/5.new").collect();
        assert_eq!(places.len(), 1);
        assert_eq!(after[places[0]].size, 77);
        assert_eq!(after[places[0]].created_at, 5);
        let mut without = after.clone();
        without.remove(places[0]);
        assert_eq!(without, before);
        let earlier = entries[..at].iter().filter(|e| e.file_name.starts_with("5.")).count();
        assert_eq!(places[0], 1 + earlier);
    }
}

#[test]
fn deleted_image_is_gone_from_the_listing() {
    let mut entries = vec![file("100.png", 1), file("300.png", 2), file("200.png", 3)];
    entries.remove(1);
    assert_eq!(names(&list_images(&entries)), vec!["200.png", "100.png"]);
}

#[test]
fn deleted_image_leaves_the_other_records_in_order() {
    let entries = vec![file("5.a", 1), file("9.b", 2), file("5.c", 3), file("x", 4), file("5.d", 5)];
    let before = list_images(&entries);
    for at in 0..entries.len() {
        let mut left = entries.clone();
        let gone = left.remove(at);
        let after = list_images(&left);
        assert!(after.iter().all(|image| image.path != gone.path));
        let expected: Vec<ImageInfo> =
            before.iter().filter(|image| image.path != gone.path).cloned().collect();
        assert_eq!(after, expected);
        assert_eq!(after.len() + 1, before.len());
    }
}

#[test]
fn created_at_reads_the_stem() {
    assert_eq!(created_at("123.png"), 123);
    assert_eq!(created_at("1700000000000.png"), 1700000000000);
    assert_eq!(created_at("12"), 12);
    assert_eq!(created_at("1.2.png"), 1);
    assert_eq!(created_at("007.png"), 7);
    assert_eq!(created_at("+5.png"), 5);
    assert_eq!(created_at("0.png"), 0);
    assert_eq!(created_at("18446744073709551615.png"), u64::MAX);
}

#[test]
fn created_at_defaults_to_zero() {
    assert_eq!(created_at(""), 0);
    assert_eq!(created_at(".png"), 0);
    assert_eq!(created_at("abc.png"), 0);
    assert_eq!(created_at("12a.png"), 0);
    assert_eq!(created_at("-3.png"), 0);
    assert_eq!(created_at("+.png"), 0);
    assert_eq!(created_at("++1.png"), 0);
    assert_eq!(created_at(" 12.png"), 0);
    assert_eq!(created_at("12 .png"), 0);
    assert_eq!(created_at("１２.png"), 0);
    assert_eq!(created_at("18446744073709551616.png"), 0);
    assert_eq!(created_at("99999999999999999999999999.png"), 0);
}

#[test]
fn created_at_agrees_with_std_parsing() {
    let samples = vec![
        "", ".", "..", "1.", ".1", "1", "+", "+0", "+00012.3", "-0", "0x10.png", "1e3.png",
        "18446744073709551615", "18446744073709551616", "28446744073709551615",
        "000000000000000000000000000042.png", "4 2", "图片.png", "٣.png", "1_000.png", "1,5.png",
        "9223372036854775808.bin",
    ];
    for sample in samples {
        assert_eq!(created_at(sample), std_created_at(sample), "{:?}", sample);
    }
}

#[test]
fn image_file_name_is_time_dot_extension() {
    assert_eq!(image_file_name(1700000000000, "png"), "1700000000000.png");
    assert_eq!(image_file_name(0, "jpg"), "0.jpg");
    assert_eq!(image_file_name(10, ""), "10.");
    assert_eq!(image_file_name(7, "tar.gz"), "7.tar.gz");
    assert_eq!(image_file_name(u128::MAX, "x"), format!("{}.{}", u128::MAX, "x"));
    assert_eq!(image_file_name(1234567890123, "图"), format!("{}.{}", 1234567890123u128, "图"));
}

#[test]
fn file_name_records_its_time() {
    let times: Vec<u64> = vec![0, 1, 9, 10, 99, 100, 1700000000000, u64::MAX - 1, u64::MAX];
    for time in times {
        for extension in vec!["png", "", "1", ".5", "+7"] {
            assert_eq!(created_at(&image_file_name(time as u128, extension)), time);
        }
    }
    assert_eq!(created_at(&image_file_name(u64::MAX as u128 + 1, "png")), 0);
}

#[test]
fn new_record_takes_time_from_name() {
    let info = ImageInfo::new("42.png".to_string(), "/x/42.png".to_string(), 9);
    assert_eq!(
        info,
        ImageInfo {
            filename: "42.png".to_string(),
            path: "/x/42.png".to_string(),
            size: 9,
            created_at: 42
        }
    );
    assert_eq!(ImageInfo::new("cat.png".to_string(), String::new(), 0).created_at, 0);
}
