use std::collections::hash_map::DefaultHasher;
use std::hash::{Hash, Hasher};

use base64::Engine;
use locadrive::links::{
    archive_links, can_name_file, linkable, links_for, name_of_archive, name_of_file,
    without_padding, Links,
};
use locadrive::message::Message;
use locadrive::numbers::{decimal_text, parse_number, signed_text};
use locadrive::screen::Row;
use locadrive::page::{follow, receive, socket_url, Channel, Edit, Reaction};
use locadrive::sending::{
    announcement_url, batch_url, compressed_type, file_upload, read_batch_key,
};
use locadrive::serving::{
    accept_upload, announce, decompresses, download, end_batch, end_upload, receive_upload,
    ArchiveRoute, Compression, Reply,
};
use locadrive::text::{begins_with, contains_text, same_text, sort_names, trim};
use locadrive::transfers::{FileCount, Transfers};

fn strings(names: &[&str]) -> Vec<String> {
    names.iter().map(|n| n.to_string()).collect()
}

fn told(edits: Vec<Edit>) -> Vec<String> {
    edits
        .into_iter()
        .map(|edit| match edit {
            Edit::AddPath(p) => format!("add {}", p),
            Edit::UnhideTransferButtons => "unhide".to_string(),
            Edit::HideTransferButtons => "hide".to_string(),
            Edit::SetTransferButtons(l) => format!("set {} {} {}", l.uncompressed, l.zst, l.gz),
            Edit::ClearDirSelect => "clear".to_string(),
            Edit::AppendPath(p) => format!("append {}", p),
        })
        .collect()
}

#[test]
fn names_of_files() {
    assert_eq!(name_of_file("/home/me/a.txt"), "a.txt");
    assert_eq!(name_of_file("C:\\Users\\me\\b/c.txt"), "b/c.txt");
    assert_eq!(name_of_file("/ab\u{e9}/\u{4e2d}\u{56fd}.txt"), "\u{4e2d}\u{56fd}.txt");
    assert_eq!(name_of_file("/ab/"), "");
    assert!(can_name_file("/ab"));
    assert!(!can_name_file("/a"));
    assert!(!can_name_file("abc"));
    assert!(!can_name_file("\u{e9}/x"));
    assert!(!can_name_file("/\u{4e2d}/x"));
    assert!(can_name_file("/\u{e9}/x"));
    assert!(!linkable(&vec![]));
    assert!(!linkable(&strings(&["abc"])));
    assert!(linkable(&strings(&["abc", ""])));
}

#[test]
fn names_of_archives() {
    assert_eq!(name_of_archive(&vec![0, 1, 2, 3, 4, 5, 6, 7]), "AAECAwQFBgc");
    assert_eq!(name_of_archive(&vec![0xfb, 0xff, 0xfe]), "-__-");
    assert_eq!(name_of_archive(&vec![0xff]), "_w");
    assert_eq!(name_of_archive(&vec![]), "");
    let links = archive_links(&vec![0, 1, 2, 3, 4, 5, 6, 7]);
    assert_eq!(links.uncompressed, "/dl/AAECAwQFBgc.tar");
    assert_eq!(links.zst, "/dl/zstd/AAECAwQFBgc.tar.zst");
    assert_eq!(links.gz, "/dl/gz/AAECAwQFBgc.tar.gz");
}

#[test]
fn padding_is_cut_off() {
    assert_eq!(without_padding("AAECAwQFBgc="), "AAECAwQFBgc");
    assert_eq!(without_padding("_w=="), "_w");
    assert_eq!(without_padding("-__-"), "-__-");
    assert_eq!(without_padding("=a"), "");
    assert_eq!(without_padding("\u{e9}=\u{e9}="), "\u{e9}");
}

#[test]
fn different_hashes_have_different_names() {
    let mut names: Vec<String> =
        (0..=255).map(|b| name_of_archive(&vec![b, 0, 0, 0, 0, 0, 0, 255 - b])).collect();
    names.sort();
    names.dedup();
    assert_eq!(names.len(), 256);
}

#[test]
fn links_to_one_file() {
    let links = links_for(&strings(&["/home/me/a.txt"]));
    assert_eq!(links.uncompressed, "/dl/a.txt");
    assert_eq!(links.zst, "/dl/zstd/a.txt.tar.zst");
    assert_eq!(links.gz, "/dl/gz/a.txt.tar.gz");
}

#[test]
fn links_to_several_files_are_named_after_their_hash() {
    let paths = vec!["/a", "/b"];
    let mut hasher = DefaultHasher::new();
    paths.hash(&mut hasher);
    let name = base64::engine::general_purpose::URL_SAFE_NO_PAD.encode(hasher.finish().to_ne_bytes());
    assert_eq!(name.len(), 11);
    let links = links_for(&strings(&["/a", "/b"]));
    assert_eq!(links.uncompressed, format!("/dl/{}.tar", name));
    assert_eq!(links.zst, format!("/dl/zstd/{}.tar.zst", name));
    assert_eq!(links.gz, format!("/dl/gz/{}.tar.gz", name));
}

#[test]
fn page_follows_the_desktop() {
    let mut channel = Channel::default();
    let r = receive(&mut channel, &Message::EditNewDir("x".to_string()), "");
    assert_eq!(r, Reaction::SetNewDir("x".to_string()));
    assert!(channel.flush().is_empty());
    let r = receive(&mut channel, &Message::AddPath, "x");
    assert_eq!(r, Reaction::Flush);
    assert_eq!(told(channel.flush()), vec!["add x"]);
    let r = receive(&mut channel, &Message::AddPath, "");
    assert_eq!(r, Reaction::Flush);
    assert!(channel.flush().is_empty());
    let r = receive(&mut channel, &Message::ChangePath("y".to_string()), "");
    assert_eq!(r, Reaction::Choose("y".to_string()));
    let r = receive(&mut channel, &Message::RecvExistingPaths(strings(&["p", "q"])), "");
    assert_eq!(r, Reaction::Flush);
    assert_eq!(told(channel.flush()), vec!["clear", "append p", "append q"]);
    let r = receive(&mut channel, &Message::ChoseFile(strings(&["/m/n.txt"])), "");
    assert_eq!(r, Reaction::Flush);
    assert_eq!(
        told(channel.flush()),
        vec!["unhide", "set /dl/n.txt /dl/zstd/n.txt.tar.zst /dl/gz/n.txt.tar.gz"]
    );
    let r = receive(&mut channel, &Message::ClearDownloadPath, "");
    assert_eq!(r, Reaction::Flush);
    assert_eq!(told(channel.flush()), vec!["hide"]);
    let r = receive(&mut channel, &Message::Refresh, "");
    assert_eq!(r, Reaction::Log);
    assert!(channel.flush().is_empty());
}

#[test]
fn page_shows_the_links_it_is_given() {
    let mut channel = Channel::default();
    let links = Links { uncompressed: "u".to_string(), zst: "z".to_string(), gz: "g".to_string() };
    let r = follow(&mut channel, &Message::ChoseFile(strings(&["/a", "/b"])), "", links);
    assert_eq!(r, Reaction::Flush);
    assert_eq!(told(channel.flush()), vec!["unhide", "set u z g"]);
}

#[test]
fn changes_wait_in_order() {
    let mut channel = Channel::default();
    channel.hide_transfer_buttons();
    channel.unhide_transfer_buttons();
    channel.clear_dir_select();
    channel.append_path("a");
    channel.add_path("b");
    channel.set_transfer_buttons("u".to_string(), "z".to_string(), "g".to_string());
    assert_eq!(
        told(channel.flush()),
        vec!["hide", "unhide", "clear", "append a", "add b", "set u z g"]
    );
    assert!(channel.flush().is_empty());
}

#[test]
fn address_for_messages() {
    assert_eq!(socket_url("192.168.1.7"), "ws://192.168.1.7:8080/ws");
}

#[test]
fn compressed_types_are_sent_as_they_are() {
    assert!(compressed_type("image/png"));
    assert!(compressed_type("video/mp4"));
    assert!(compressed_type("audio/mpeg"));
    assert!(!compressed_type("audio/wav"));
    assert!(compressed_type("audio/wave"));
    assert!(!compressed_type("text/plain"));
    assert!(!compressed_type(""));
    assert!(!compressed_type("x-image"));
}

#[test]
fn files_are_sent_under_an_ascii_name() {
    let u = file_upload(3, "\u{c6}neid.txt", "text/plain");
    assert_eq!(u.file_name, "AEneid.txt");
    assert!(file_upload(3, "\u{4e2d}\u{1f600}", "").file_name.is_ascii());
    assert!(u.compress);
    assert_eq!(u.url, "/upload/3");
    let u = file_upload(12, "plain name.png", "image/png");
    assert_eq!(u.file_name, "plain name.png");
    assert!(!u.compress);
    assert_eq!(u.url, "/upload/12");
}

#[test]
fn a_batch_from_announcement_to_end() {
    let mut t = Transfers::new();
    t.open_batch(FileCount::Whole(1), 0);
    assert_eq!(announcement_url(2), "/upload/2");
    let announced = announce(&mut t, "2", None).unwrap();
    assert_eq!(announced.key, "1");
    assert_eq!(announced.notice, Message::Refresh);
    let key = read_batch_key(&announced.key).unwrap();
    assert_eq!(batch_url(key), "/upload/1");
    let u = receive_upload(&mut t, &Some("photos".to_string()), "1", "a.txt", 9, &vec![b"zstd".to_vec()])
        .unwrap();
    assert_eq!(u.folder, "photos");
    assert_eq!(u.file_name, "a.txt");
    assert!(u.decompress);
    assert_eq!(end_upload(&mut t, u.ticket), Message::Refresh);
    let u = receive_upload(&mut t, &None, "1", "b.png", 9, &vec![]).unwrap();
    assert_eq!(u.folder, "out");
    assert!(!u.decompress);
    t.finish_file(u.ticket);
    assert_eq!(end_batch(&mut t, "1"), Some(Message::Refresh));
    assert_eq!(end_batch(&mut t, "1"), None);
    assert_eq!(end_batch(&mut t, "one"), None);
}

#[test]
fn announcements_are_answered_with_the_next_key() {
    let mut t = Transfers::new();
    assert_eq!(announce(&mut t, "3", None).unwrap().key, "0");
    assert_eq!(announce(&mut t, "2", None).unwrap().key, "1");
    assert_eq!(end_batch(&mut t, "0"), Some(Message::Refresh));
    assert_eq!(announce(&mut t, "5", Some("5".to_string())).unwrap().key, "0");
    let counts: Vec<u64> = t
        .progress()
        .iter()
        .filter_map(|row| match row {
            Row::FileBar { num_files: FileCount::Whole(n), .. } => Some(*n),
            _ => None,
        })
        .collect();
    assert_eq!(counts, [5, 2]);
}

#[test]
fn what_is_not_a_number_is_not_taken() {
    let mut t = Transfers::new();
    for text in ["many", "", "1.5.2"] {
        let float = text.parse::<f32>().ok().map(|n| n.to_string());
        assert!(announce(&mut t, text, float).is_none());
    }
    assert_eq!(t.batch_at(0), None);
    assert!(accept_upload(&mut t, &None, "0", "a", 1, false).is_none());
    assert!(accept_upload(&mut t, &None, "x", "a", 1, false).is_none());
    assert!(receive_upload(&mut t, &None, "0", "a", 1, &vec![vec![0]]).is_none());
}

#[test]
fn any_number_is_taken_and_written_out() {
    let cases = [
        ("2", "0/2"),
        ("+007", "0/7"),
        ("16777216", "0/16777216"),
        ("16777217", "0/16777216"),
        ("2.5", "0/2.5"),
        ("1e3", "0/1000"),
        ("-1", "0/-1"),
        ("inf", "0/inf"),
    ];
    for (key, (text, line)) in cases.into_iter().enumerate() {
        let mut t = Transfers::new();
        for _ in 0..key {
            t.open_batch(FileCount::Whole(1), 0);
        }
        let float = text.parse::<f32>().ok().map(|n| n.to_string());
        assert_eq!(announce(&mut t, text, float).unwrap().key, key.to_string());
        let rows = t.progress();
        match &rows[2 * key] {
            Row::Line(shown) => assert_eq!(shown, line),
            _ => panic!("no line"),
        }
    }
}

#[test]
fn archives_are_compressed_by_their_address() {
    assert_eq!(ArchiveRoute::Zst.pattern(), "/dl/zstd/:file_id");
    assert_eq!(ArchiveRoute::Gz.pattern(), "/dl/gz/:file_id");
    assert_eq!(ArchiveRoute::Zst.compression(), Compression::Zstd);
    assert_eq!(ArchiveRoute::Gz.compression(), Compression::Gzip);
}

#[test]
fn uploads_are_decompressed_when_they_say_so() {
    assert_eq!(decompresses(&vec![b"zstd".to_vec()]), Some(true));
    assert_eq!(decompresses(&vec![b"gzip, zstd".to_vec()]), Some(true));
    assert_eq!(decompresses(&vec![b"gzip".to_vec(), b"zstd".to_vec()]), Some(true));
    assert_eq!(decompresses(&vec![b"gzip".to_vec()]), Some(false));
    assert_eq!(decompresses(&vec![b"zstdx".to_vec()]), Some(false));
    assert_eq!(decompresses(&vec![]), Some(false));
    assert_eq!(decompresses(&vec![vec![0xff, 0x20]]), Some(false));
    assert_eq!(decompresses(&vec![b"zst\nd".to_vec()]), None);
}

#[test]
fn downloads_by_number_of_files() {
    assert_eq!(download(&vec![], Some("zstd")), Reply::Empty);
    assert_eq!(download(&strings(&["/a"]), Some("zstd")), Reply::File("/a".to_string()));
    let two = strings(&["/a", "/b"]);
    assert_eq!(download(&two, Some("gzip, br, zstd")), Reply::Archive(Compression::Zstd));
    assert_eq!(download(&two, Some("gzip, br")), Reply::Archive(Compression::Gzip));
    assert_eq!(download(&two, Some("br")), Reply::Archive(Compression::Uncompressed));
    assert_eq!(download(&two, None), Reply::Archive(Compression::Uncompressed));
    assert_eq!(Compression::Zstd.content_encoding(), Some("zstd"));
    assert_eq!(Compression::Gzip.content_encoding(), Some("gzip"));
    assert_eq!(Compression::Uncompressed.content_encoding(), None);
}

#[test]
fn numbers_in_decimal() {
    for n in [0, 7, 10, 99, 100, 18446744073709551615u64] {
        assert_eq!(decimal_text(n), n.to_string());
        assert_eq!(parse_number(&decimal_text(n), u64::MAX), Some(n));
    }
    for i in [0, 5, -1, -10, i64::MIN, i64::MAX] {
        assert_eq!(signed_text(i), i.to_string());
    }
    for text in ["", "+", "+7", "007", "-1", "1a", " 1", "1.5", "18446744073709551615", "18446744073709551616", "99999999999999999999"] {
        assert_eq!(parse_number(text, u64::MAX), text.parse::<u64>().ok());
    }
    assert_eq!(parse_number("256", 255), None);
    assert_eq!(parse_number("255", 255), Some(255));
}

#[test]
fn texts() {
    for text in ["", " ", "a", " a b ", "\u{a0}\u{2003}x\u{85}", "\u{200b}x", "\u{1680}\u{205f}\u{202f}"] {
        assert_eq!(trim(text), text.trim());
    }
    assert!(begins_with("abc", "ab"));
    assert!(begins_with("abc", ""));
    assert!(!begins_with("a", "ab"));
    assert!(!begins_with("xab", "ab"));
    assert!(contains_text("abcabd", "abd"));
    assert!(contains_text("", ""));
    assert!(!contains_text("ab", "abc"));
    assert!(!contains_text("abcab", "abd"));
    assert!(same_text("ab", "ab"));
    assert!(!same_text("ab", "ac"));
    assert!(!same_text("ab", "abc"));
    assert_eq!(sort_names(strings(&["b", "a", "b", ""])), strings(&["", "a", "b", "b"]));
}
