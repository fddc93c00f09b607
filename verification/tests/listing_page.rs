use live_server::listing::{
    classify_entry, serve_directory_listing, DirectoryEntry, EntryType,
};
use live_server::server::ResponseBody;

fn entry(name: &str, kind: EntryType, size: Option<u64>) -> DirectoryEntry {
    DirectoryEntry::new(name.to_string(), kind, size, None)
}

fn page_text(dir_label: &str, rel_dir: &str, entries: Vec<DirectoryEntry>) -> String {
    let r = serve_directory_listing(dir_label, rel_dir, entries);
    assert_eq!(r.status, 200);
    assert_eq!(r.content_type, "text/html; charset=utf-8");
    match r.body {
        ResponseBody::Text(s) => s,
        ResponseBody::Bytes(_) => panic!("listing body must be text"),
    }
}

fn row_count(page: &str) -> usize {
    page.matches("<li class=\"entry\">").count()
}

#[test]
fn listing_has_one_row_per_child() {
    let entries = vec![
        entry("b.txt", EntryType::File, Some(10)),
        entry("a", EntryType::Dir, None),
        entry("weird", EntryType::Other, None),
    ];
    let page = page_text("/root", "", entries);
    assert_eq!(row_count(&page), 3);
}

#[test]
fn listing_orders_directories_then_files_then_other() {
    let entries = vec![
        entry("z.txt", EntryType::File, Some(1)),
        entry("odd", EntryType::Other, None),
        entry("adir", EntryType::Dir, None),
        entry("link", EntryType::FileLink, Some(2)),
        entry("dlink", EntryType::DirLink, None),
    ];
    let page = page_text("/root", "", entries);
    let pos = |name: &str| page.find(&format!(">{}</a>", name)).unwrap();
    assert!(pos("adir") < pos("dlink"));
    assert!(pos("dlink") < pos("z.txt"));
    assert!(pos("z.txt") < pos("link"));
    assert!(pos("link") < pos("odd"));
}

#[test]
fn equal_rank_keeps_enumeration_order() {
    let entries = vec![
        entry("second.txt", EntryType::File, Some(1)),
        entry("first.txt", EntryType::File, Some(1)),
    ];
    let page = page_text("/root", "", entries);
    let pos = |name: &str| page.find(name).unwrap();
    assert!(pos("second.txt") < pos("first.txt"));
}

#[test]
fn empty_directory_lists_nothing() {
    let page = page_text("/root/empty", "empty", vec![]);
    assert_eq!(row_count(&page), 0);
}

#[test]
fn script_filename_renders_escaped() {
    let entries = vec![entry("<script>alert(1)</script>", EntryType::File, Some(5))];
    let page = page_text("/root", "", entries);
    assert!(page.contains("&lt;script&gt;alert(1)&lt;/script&gt;"));
    assert!(!page.contains("<script>alert(1)"));
}

#[test]
fn directory_label_renders_escaped() {
    let page = page_text("/root/a<b", "", vec![]);
    assert!(page.contains("Index of /root/a&lt;b"));
    assert!(!page.contains("Index of /root/a<b"));
}

#[test]
fn sizes_appear_for_files_not_directories() {
    let entries = vec![
        entry("big.bin", EntryType::File, Some(1536)),
        entry("adir", EntryType::Dir, Some(4096)),
    ];
    let page = page_text("/root", "", entries);
    assert!(page.contains("1.5 KB"));
    assert!(!page.contains("4 KB"));
}

#[test]
fn entry_links_carry_directory_path() {
    let entries = vec![entry("file.txt", EntryType::File, Some(1))];
    let page = page_text("/root/sub", "sub", entries);
    assert!(page.contains("href=\"/sub/file.txt\""));
    let entries = vec![entry("top.txt", EntryType::File, Some(1))];
    let page = page_text("/root", "", entries);
    assert!(page.contains("href=\"/top.txt\""));
}

#[test]
fn classification_follows_symlink_targets() {
    assert_eq!(classify_entry(false, false, false, true, false), EntryType::Dir);
    assert_eq!(classify_entry(false, false, false, false, true), EntryType::File);
    assert_eq!(classify_entry(true, true, false, false, false), EntryType::DirLink);
    assert_eq!(classify_entry(true, false, true, false, false), EntryType::FileLink);
    assert_eq!(classify_entry(true, false, false, false, false), EntryType::Other);
    assert_eq!(classify_entry(false, false, false, false, false), EntryType::Other);
}

#[test]
fn entry_kind_ranks_and_labels() {
    assert_eq!(EntryType::Dir.value(), 0);
    assert_eq!(EntryType::DirLink.value(), 1);
    assert_eq!(EntryType::File.value(), 2);
    assert_eq!(EntryType::FileLink.value(), 3);
    assert_eq!(EntryType::Other.value(), 4);
    assert!(EntryType::Dir.is_dir());
    assert!(!EntryType::DirLink.is_dir());
    assert_eq!(EntryType::Dir.kind_label(), "dir");
    assert_eq!(EntryType::Other.kind_label(), "unknown");
    assert!(EntryType::File.to_icon().contains("<svg"));
}

#[test]
fn extreme_modification_times_are_harmless() {
    // A filesystem may report a time far outside the calendar range a
    // formatter can represent; the entry must still build and render.
    let far_future = std::time::UNIX_EPOCH + std::time::Duration::from_secs(10_000_000_000_000);
    let e = DirectoryEntry::new("odd.txt".to_string(), EntryType::File, Some(1), Some(far_future));
    assert!(e.modified.is_some());
    let page = page_text("/root", "", vec![e]);
    assert_eq!(row_count(&page), 1);

    let pre_epoch = std::time::UNIX_EPOCH - std::time::Duration::from_secs(86_400);
    let e = DirectoryEntry::new("old.txt".to_string(), EntryType::File, Some(1), Some(pre_epoch));
    assert!(e.modified.is_some());
    let page = page_text("/root", "", vec![e]);
    assert_eq!(row_count(&page), 1);
}

#[test]
fn modification_time_renders_when_given() {
    let e = DirectoryEntry::new(
        "stamped.txt".to_string(),
        EntryType::File,
        Some(1),
        Some(std::time::SystemTime::now()),
    );
    assert!(e.modified.is_some());
    let page = page_text("/root", "", vec![e]);
    assert_eq!(row_count(&page), 1);
}
