use locadrive::message::Message;
use locadrive::screen::{crash_text, Row};
use locadrive::socket::{websocket, SocketAction, SocketEvent};
use locadrive::transfers::{FileCount, Transfers};
use locadrive::uploader::{picked, Command, DirEntry, Uploader};

fn dir(name: &str) -> DirEntry {
    DirEntry { name: name.to_string(), is_dir: true }
}

fn file(name: &str) -> DirEntry {
    DirEntry { name: name.to_string(), is_dir: false }
}

fn strings(names: &[&str]) -> Vec<String> {
    names.iter().map(|n| n.to_string()).collect()
}

fn desktop(names: &[&str]) -> Uploader {
    let entries: Vec<DirEntry> = names.iter().map(|n| dir(n)).collect();
    Uploader::new(&entries, Some("192.168.1.7".to_string()))
}

#[test]
fn starts_with_the_visible_folders_in_order() {
    let entries = vec![dir("photos"), dir(".git"), dir("dist"), file("notes"), dir("Music"), dir("dist2")];
    let u = Uploader::new(&entries, Some("192.168.1.7".to_string()));
    assert_eq!(u.current_dir, strings(&["Music", "dist2", "photos"]));
    assert_eq!(u.output_path, Some("Music".to_string()));
    assert_eq!(u.instructions, "Open a web browser and type in 192.168.1.7:8080");
    assert_eq!(u.new_dir_input, "");
    assert!(u.download_path.is_empty());
    assert_eq!(u.clients_connected, 0);
}

#[test]
fn starts_without_folders_or_network() {
    let u = Uploader::new(&vec![file("a"), dir(".b")], None);
    assert!(u.current_dir.is_empty());
    assert_eq!(u.output_path, None);
    assert_eq!(
        u.instructions,
        "You need to connect your computer to WiFi to use this uploader. Once connected, restart this app"
    );
}

#[test]
fn folders_sort_like_strings() {
    let mut names = strings(&["b", "a", "\u{e9}", "z", "\u{1f600}", "\u{ffff}", "ab", ""]);
    let u = {
        let entries: Vec<DirEntry> = names.iter().map(|n| dir(n)).collect();
        Uploader::new(&entries, None)
    };
    names.sort_unstable();
    assert_eq!(u.current_dir, names);
}

#[test]
fn chooses_a_folder_and_tells_the_browsers() {
    let mut u = desktop(&["a", "b"]);
    let out = u.update(Message::ChangePath("b".to_string()));
    assert_eq!(u.output_path, Some("b".to_string()));
    assert_eq!(out.broadcasts, vec![Message::ChangePath("b".to_string())]);
    assert!(!out.listener_required);
    assert_eq!(out.command, Command::Nothing);
}

#[test]
fn adds_a_folder_trimmed_and_sorted() {
    let mut u = desktop(&["a", "c"]);
    u.update(Message::EditNewDir(" b\u{3000}\t".to_string()));
    let out = u.update(Message::AddPath);
    assert_eq!(u.current_dir, strings(&["a", "b", "c"]));
    assert_eq!(u.output_path, Some(" b\u{3000}\t".to_string()));
    assert_eq!(u.new_dir_input, "");
    assert_eq!(out.broadcasts, vec![Message::AddPath]);
}

#[test]
fn adds_no_folder_without_a_name() {
    let mut u = desktop(&["a"]);
    let out = u.update(Message::AddPath);
    assert_eq!(u.current_dir, strings(&["a"]));
    assert_eq!(u.output_path, Some("a".to_string()));
    assert_eq!(out.broadcasts, vec![Message::AddPath]);
}

#[test]
fn clears_the_downloads_once() {
    let mut u = desktop(&["a"]);
    let out = u.update(Message::ClearDownloadPath);
    assert!(out.broadcasts.is_empty());
    u.update(Message::ChoseFile(strings(&["/x/y"])));
    assert_eq!(u.download_path, strings(&["/x/y"]));
    let out = u.update(Message::ClearDownloadPath);
    assert!(u.download_path.is_empty());
    assert_eq!(out.broadcasts, vec![Message::ClearDownloadPath]);
}

#[test]
fn greets_a_browser() {
    let mut u = desktop(&["a", "b"]);
    u.update(Message::EditNewDir("new".to_string()));
    u.update(Message::ChoseFile(strings(&["/x", "/y"])));
    let out = u.update(Message::WSConnection);
    assert_eq!(u.clients_connected, 1);
    assert!(out.listener_required);
    assert_eq!(
        out.broadcasts,
        vec![
            Message::EditNewDir("new".to_string()),
            Message::RecvExistingPaths(strings(&["a", "b"])),
            Message::ChangePath("a".to_string()),
            Message::ChoseFile(strings(&["/x", "/y"])),
        ]
    );
    let out = u.update(Message::WSClose);
    assert_eq!(u.clients_connected, 0);
    assert!(out.broadcasts.is_empty());
}

#[test]
fn greets_with_little_when_there_is_little() {
    let mut u = desktop(&[]);
    let out = u.update(Message::WSConnection);
    assert_eq!(
        out.broadcasts,
        vec![Message::EditNewDir(String::new()), Message::RecvExistingPaths(vec![])]
    );
}

#[test]
fn window_commands() {
    let mut u = desktop(&["a"]);
    let out = u.update(Message::OpenFileDialog);
    assert_eq!(out.command, Command::PickFiles);
    assert!(out.broadcasts.is_empty());
    let out = u.update(Message::FocusWindow);
    assert_eq!(out.command, Command::FocusWindow);
    assert!(out.broadcasts.is_empty());
    let out = u.update(Message::Refresh);
    assert_eq!(out.command, Command::Nothing);
    assert!(out.broadcasts.is_empty());
    let out = u.update(Message::RecvExistingPaths(strings(&["q"])));
    assert_eq!(out.broadcasts, vec![Message::RecvExistingPaths(strings(&["q"]))]);
    assert_eq!(u.current_dir, strings(&["a"]));
}

#[test]
fn picked_files_become_a_message() {
    assert_eq!(picked(None), Message::ClearDownloadPath);
    assert_eq!(picked(Some(vec![])), Message::ClearDownloadPath);
    assert_eq!(picked(Some(strings(&["/a"]))), Message::ChoseFile(strings(&["/a"])));
}

fn shown(row: &Row) -> String {
    match row {
        Row::Heading(t) => format!("# {}", t),
        Row::Line(t) => t.clone(),
        Row::GoodNews(t) => format!("! {}", t),
        Row::FolderChoice { folders, chosen, new_folder } => {
            format!("{:?} {:?} {:?}", folders, chosen, new_folder)
        }
        Row::FileChoice { can_clear } => format!("clear {}", can_clear),
        Row::FileBar { num_files, files } => format!("files {} of {:?}", files, num_files),
        Row::ByteBar { num_bytes, bytes } => format!("bytes {} of {}", bytes, num_bytes),
    }
}

#[test]
fn window_shows_everything_in_order() {
    let mut u = desktop(&["a"]);
    u.update(Message::WSConnection);
    u.update(Message::EditNewDir("n".to_string()));
    let mut t = Transfers::new();
    let first = t.open_batch(FileCount::Whole(3), 0);
    let second = t.open_batch(FileCount::Whole(1), -1);
    let ticket = t.begin_file(first, "Upload: x".to_string(), 10).unwrap();
    t.advance(&ticket, 4);
    t.begin_file(first, "Upload: y".to_string(), 7).unwrap();
    assert!(second > first);
    let rows: Vec<String> = u.rows(&t).iter().map(shown).collect();
    assert_eq!(
        rows,
        strings(&[
            "# LocaDrive",
            "Open a web browser and type in 192.168.1.7:8080",
            "! Clients connected: 1",
            "Output to:",
            "[\"a\"] Some(\"a\") \"n\"",
            "clear false",
            "0/3",
            "files 0 of Whole(3)",
            "Upload: x",
            "bytes 4 of 10",
            "Upload: y",
            "bytes 0 of 7",
            "-1/1",
            "files -1 of Whole(1)",
        ])
    );
    assert_eq!(u.title(), "LocaDrive");
}

#[test]
fn crash_report_has_both_parts() {
    assert_eq!(crash_text("panicked", "at main"), "panickedzstdat main");
}

#[test]
fn connection_of_a_browser() {
    assert_eq!(websocket(SocketEvent::Opened), SocketAction::Forward(Message::WSConnection));
    assert_eq!(websocket(SocketEvent::Told(Message::AddPath)), SocketAction::Send(Message::AddPath));
    assert_eq!(
        websocket(SocketEvent::Received(Message::Refresh)),
        SocketAction::Forward(Message::Refresh)
    );
    assert_eq!(websocket(SocketEvent::Closed), SocketAction::ForwardAndStop(Message::WSClose));
    assert_eq!(websocket(SocketEvent::Other), SocketAction::Ignore);
}

#[test]
fn counts_browsers_and_keeps_folders() {
    let mut u = desktop(&["b"]);
    u.update(Message::WSConnection);
    u.update(Message::WSConnection);
    u.update(Message::EditNewDir("a".to_string()));
    u.update(Message::AddPath);
    u.update(Message::AddPath);
    u.update(Message::RecvExistingPaths(vec![]));
    u.update(Message::WSClose);
    u.update(Message::WSConnection);
    assert_eq!(u.clients_connected, 2);
    assert_eq!(u.current_dir, strings(&["a", "b"]));
}
