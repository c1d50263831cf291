use locadrive::message::Message;
use locadrive::page::{receive, Channel, Edit, Reaction};
use locadrive::serving::{announce, receive_upload};
use locadrive::sending::{batch_url, file_upload, read_batch_key};
use locadrive::transfers::{FileCount, Transfers};
use locadrive::uploader::{DirEntry, Uploader};

/// What a page shows.
#[derive(Default)]
struct Page {
    channel: Channel,
    folders: Vec<String>,
    chosen: Option<String>,
    new_dir: String,
    links_shown: bool,
    link: String,
}

impl Page {
    fn append(&mut self, path: String) {
        self.folders.push(path);
        if self.chosen.is_none() {
            self.chosen = Some(self.folders[0].clone());
        }
    }

    fn pick(&mut self, path: &str) {
        self.chosen = self.folders.iter().find(|p| p.as_str() == path).cloned();
    }

    fn take_in(&mut self, message: &Message) {
        let new_dir = self.new_dir.clone();
        match receive(&mut self.channel, message, &new_dir) {
            Reaction::SetNewDir(name) => self.new_dir = name,
            Reaction::Choose(path) => self.pick(&path),
            Reaction::Flush => {
                for edit in self.channel.flush() {
                    match edit {
                        Edit::AddPath(path) => {
                            self.append(path.clone());
                            self.pick(&path);
                            self.new_dir = String::new();
                        }
                        Edit::UnhideTransferButtons => self.links_shown = true,
                        Edit::HideTransferButtons => self.links_shown = false,
                        Edit::SetTransferButtons(links) => self.link = links.uncompressed,
                        Edit::ClearDirSelect => {
                            self.folders.clear();
                            self.chosen = None;
                        }
                        Edit::AppendPath(path) => self.append(path),
                    }
                }
            }
            Reaction::Log => {}
        }
    }
}

fn assert_in_step(desktop: &Uploader, page: &Page) {
    let mut folders = page.folders.clone();
    folders.sort();
    assert_eq!(folders, desktop.current_dir);
    assert_eq!(page.chosen, desktop.output_path);
    assert_eq!(page.new_dir, desktop.new_dir_input);
    assert_eq!(page.links_shown, !desktop.download_path.is_empty());
}

fn tell(desktop: &mut Uploader, pages: &mut Vec<Page>, message: Message) {
    let outcome = desktop.update(message);
    for m in &outcome.broadcasts {
        for page in pages.iter_mut() {
            page.take_in(m);
        }
    }
    for page in pages.iter() {
        assert_in_step(desktop, page);
    }
}

#[test]
fn pages_stay_in_step_with_the_desktop() {
    let entries: Vec<DirEntry> = ["music", "films"]
        .iter()
        .map(|name| DirEntry { name: name.to_string(), is_dir: true })
        .collect();
    let mut desktop = Uploader::new(&entries, None);
    let mut pages = vec![Page::default()];
    tell(&mut desktop, &mut pages, Message::WSConnection);
    tell(&mut desktop, &mut pages, Message::ChangePath("music".to_string()));
    tell(&mut desktop, &mut pages, Message::EditNewDir("books".to_string()));
    tell(&mut desktop, &mut pages, Message::AddPath);
    assert_eq!(pages[0].folders, ["films", "music", "books"]);
    tell(&mut desktop, &mut pages, Message::AddPath);
    assert_eq!(pages[0].folders, ["films", "music", "books"]);
    tell(&mut desktop, &mut pages, Message::ChoseFile(vec!["/tmp/a.txt".to_string()]));
    assert_eq!(pages[0].link, "/dl/a.txt");
    pages.push(Page::default());
    tell(&mut desktop, &mut pages, Message::WSConnection);
    assert_eq!(pages[1].folders, ["books", "films", "music"]);
    assert_eq!(pages[1].link, "/dl/a.txt");
    let same = vec!["books".to_string(), "music".to_string(), "films".to_string()];
    tell(&mut desktop, &mut pages, Message::RecvExistingPaths(same));
    tell(&mut desktop, &mut pages, Message::ClearDownloadPath);
    tell(&mut desktop, &mut pages, Message::ClearDownloadPath);
    tell(&mut desktop, &mut pages, Message::Refresh);
    pages.pop();
    tell(&mut desktop, &mut pages, Message::WSClose);
    assert_eq!(desktop.clients_connected, 1);
}

#[test]
fn what_a_browser_sends_is_what_the_desktop_takes_in() {
    let mut transfers = Transfers::new();
    transfers.open_batch(FileCount::Whole(1), 0);
    let key = read_batch_key(&announce(&mut transfers, "2", None).unwrap().key).unwrap();
    for (name, file_type, compressed) in
        [("notes.txt", "text/plain", true), ("photo.jpg", "image/jpeg", false)]
    {
        let sent = file_upload(key, name, file_type);
        assert_eq!(sent.compress, compressed);
        assert_eq!(sent.url, batch_url(key));
        let tail = &sent.url["/upload/".len()..];
        let encodings = if sent.compress { vec![b"zstd".to_vec()] } else { vec![] };
        let taken =
            receive_upload(&mut transfers, &None, tail, &sent.file_name, 5, &encodings).unwrap();
        assert_eq!(taken.decompress, compressed);
        assert_eq!(taken.file_name, name);
        assert_eq!(transfers.batch_at(key as usize), Some(taken.ticket.batch));
        transfers.finish_file(taken.ticket);
    }
}
