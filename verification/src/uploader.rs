//! The desktop side: which folders there are, where uploads go, what is on
//! offer for download, and what the browsers are told about it.

use vstd::prelude::*;
use vstd::string::*;

use crate::message::{copy_names, Message, MessageView};
use crate::text::{begins_with, in_order, in_order_sorts, is_sorted, same_text, sort_names, trim, trimmed};

verus! {

/// An entry of the working directory.
pub struct DirEntry {
    pub name: String,
    pub is_dir: bool,
}

/// What has to be done in the desktop window after a message.
#[derive(Debug, Clone, Copy, PartialEq, Eq)]
pub enum Command {
    /// Nothing more.
    Nothing,
    /// Open the dialog that picks files to offer.
    PickFiles,
    /// Restore the window and give it the focus.
    FocusWindow,
}

/// What follows from a message: what the browsers are told, in order, and what
/// the window does.
pub struct Outcome {
    pub broadcasts: Vec<Message>,
    /// Some browser has to be listening to `broadcasts`.
    pub listener_required: bool,
    pub command: Command,
}

/// The state of the desktop side.
pub struct Uploader {
    /// The folders to choose from, in order.
    pub current_dir: Vec<String>,
    /// The folder that uploads go to.
    pub output_path: Option<String>,
    /// The name of a folder to create, as typed so far.
    pub new_dir_input: String,
    /// How to reach the desktop with a browser.
    pub instructions: String,
    /// The files on offer for download.
    pub download_path: Vec<String>,
    /// How many browsers are connected.
    pub clients_connected: u32,
}

/// The state of the desktop side, with its texts as character sequences.
pub struct UploaderView {
    pub folders: Seq<Seq<char>>,
    pub output: Option<Seq<char>>,
    pub new_dir: Seq<char>,
    pub instructions: Seq<char>,
    pub downloads: Seq<Seq<char>>,
    pub clients: int,
}

impl View for Uploader {
    type V = UploaderView;

    open spec fn view(&self) -> UploaderView {
        UploaderView {
            folders: self.current_dir.deep_view(),
            output: text_of(self.output_path),
            new_dir: self.new_dir_input@,
            instructions: self.instructions@,
            downloads: self.download_path.deep_view(),
            clients: self.clients_connected as int,
        }
    }
}

/// The characters of an optional text.
pub open spec fn text_of(t: Option<String>) -> Option<Seq<char>> {
    match t {
        Some(t) => Some(t@),
        None => None,
    }
}

/// A folder of the working directory that uploads may go to: not a hidden one,
/// and not the one that holds the browser application.
pub open spec fn is_upload_folder(e: DirEntry) -> bool {
    &&& e.is_dir
    &&& !"."@.is_prefix_of(e.name@)
    &&& e.name@ != "dist"@
}

/// The names of the folders that uploads may go to, in the order given.
pub open spec fn upload_folders(entries: Seq<DirEntry>) -> Seq<Seq<char>>
    decreases entries.len(),
{
    if entries.len() == 0 {
        Seq::empty()
    } else if is_upload_folder(entries.last()) {
        upload_folders(entries.drop_last()).push(entries.last().name@)
    } else {
        upload_folders(entries.drop_last())
    }
}

/// What to tell a person about reaching the desktop at an address, if it has one.
pub open spec fn instructions_for(ip: Option<Seq<char>>) -> Seq<char> {
    match ip {
        Some(ip) => "Open a web browser and type in "@ + ip + ":8080"@,
        None => "You need to connect your computer to WiFi to use this uploader. Once connected, restart this app"@,
    }
}

/// The state in which the desktop starts.
pub open spec fn initial(entries: Seq<DirEntry>, ip: Option<Seq<char>>) -> UploaderView {
    let folders = in_order(upload_folders(entries));
    UploaderView {
        folders,
        output: if folders.len() > 0 {
            Some(folders[0])
        } else {
            None
        },
        new_dir: Seq::empty(),
        instructions: instructions_for(ip),
        downloads: Seq::empty(),
        clients: 0,
    }
}

/// The state after a message.
pub open spec fn after(s: UploaderView, m: MessageView) -> UploaderView {
    match m {
        MessageView::ChangePath(p) => UploaderView { output: Some(p), ..s },
        MessageView::EditNewDir(p) => UploaderView { new_dir: p, ..s },
        MessageView::AddPath => if s.new_dir.len() > 0 {
            UploaderView {
                folders: in_order(s.folders.push(trimmed(s.new_dir))),
                output: Some(s.new_dir),
                new_dir: Seq::empty(),
                ..s
            }
        } else {
            s
        },
        MessageView::ChoseFile(paths) => UploaderView { downloads: paths, ..s },
        MessageView::ClearDownloadPath => UploaderView { downloads: Seq::empty(), ..s },
        MessageView::WSConnection => UploaderView { clients: s.clients + 1, ..s },
        MessageView::WSClose => UploaderView { clients: s.clients - 1, ..s },
        _ => s,
    }
}

/// What brings a browser that has just connected up to date.
pub open spec fn greeting(s: UploaderView) -> Seq<MessageView> {
    seq![MessageView::EditNewDir(s.new_dir), MessageView::RecvExistingPaths(s.folders)] + (
    match s.output {
        Some(p) => seq![MessageView::ChangePath(p)],
        None => Seq::empty(),
    }) + (if s.downloads.len() > 0 {
        seq![MessageView::ChoseFile(s.downloads)]
    } else {
        Seq::empty()
    })
}

/// What the browsers are told about a message.
pub open spec fn told(s: UploaderView, m: MessageView) -> Seq<MessageView> {
    match m {
        MessageView::OpenFileDialog
        | MessageView::Refresh
        | MessageView::WSClose
        | MessageView::FocusWindow => Seq::empty(),
        MessageView::ClearDownloadPath => if s.downloads.len() > 0 {
            seq![m]
        } else {
            Seq::empty()
        },
        MessageView::WSConnection => greeting(s),
        _ => seq![m],
    }
}

/// What the window does about a message.
pub open spec fn command_for(m: MessageView) -> Command {
    match m {
        MessageView::OpenFileDialog => Command::PickFiles,
        MessageView::FocusWindow => Command::FocusWindow,
        _ => Command::Nothing,
    }
}

/// The count of browsers has room for a message.
pub open spec fn countable(clients: u32, m: Message) -> bool {
    &&& m is WSConnection ==> clients < u32::MAX
    &&& m is WSClose ==> clients > 0
}

/// The folders of the working directory that uploads may go to.
fn select_folders(entries: &Vec<DirEntry>) -> (res: Vec<String>)
    ensures
        res.deep_view() == upload_folders(entries@),
{
    let mut res: Vec<String> = Vec::new();
    assert(entries@.take(0).len() == 0);
    assert(res.deep_view() =~= upload_folders(entries@.take(0)));
    for i in 0..entries.len()
        invariant
            res.deep_view() == upload_folders(entries@.take(i as int)),
    {
        assert(entries@.take(i + 1).drop_last() =~= entries@.take(i as int));
        if entries[i].is_dir && !begins_with(entries[i].name.as_str(), ".") && !same_text(
            entries[i].name.as_str(),
            "dist",
        ) {
            let ghost before = res.deep_view();
            res.push(entries[i].name.clone());
            assert(res.deep_view() =~= before.push(entries[i as int].name@));
        }
    }
    assert(entries@.take(entries@.len() as int) =~= entries@);
    res
}

impl Uploader {
    /// The folders are listed in order, and an upload has somewhere to go as
    /// soon as there is a folder.
    pub open spec fn well_formed(&self) -> bool {
        &&& is_sorted(self@.folders)
        &&& self@.output is None ==> self@.folders.len() == 0
    }

    /// The state in which the desktop starts, given the entries of its working
    /// directory and its address in the local network.
    pub fn new(entries: &Vec<DirEntry>, local_ip: Option<String>) -> (res: Self)
        ensures
            res@ == initial(entries@, text_of(local_ip)),
            res@.folders.len() == upload_folders(entries@).len(),
            res@.folders.to_multiset() == upload_folders(entries@).to_multiset(),
            res.well_formed(),
    {
        let current_dir = sort_names(select_folders(entries));
        let output_path = if current_dir.len() > 0 {
            Some(current_dir[0].clone())
        } else {
            None
        };
        let instructions = match local_ip {
            Some(ip) => "Open a web browser and type in ".to_owned().concat(ip.as_str()).concat(
                ":8080",
            ),
            None => "You need to connect your computer to WiFi to use this uploader. Once connected, restart this app".to_owned(),
        };
        let res = Uploader {
            current_dir,
            output_path,
            new_dir_input: String::new(),
            instructions,
            download_path: Vec::new(),
            clients_connected: 0,
        };
        assert(res@.downloads =~= Seq::<Seq<char>>::empty());
        res
    }

    /// The messages that bring a browser that has just connected up to date.
    fn greet(&self) -> (res: Vec<Message>)
        ensures
            res.deep_view() == greeting(self@),
    {
        let mut res: Vec<Message> = Vec::new();
        res.push(Message::EditNewDir(self.new_dir_input.clone()));
        res.push(Message::RecvExistingPaths(copy_names(&self.current_dir)));
        match &self.output_path {
            Some(path) => res.push(Message::ChangePath(path.clone())),
            None => {},
        }
        if self.download_path.len() > 0 {
            res.push(Message::ChoseFile(copy_names(&self.download_path)));
        }
        assert(res.deep_view() =~= greeting(self@));
        res
    }

    /// Takes a message in.
    pub fn update(&mut self, message: Message) -> (res: Outcome)
        requires
            countable(old(self).clients_connected, message),
        ensures
            final(self)@ == after(old(self)@, message@),
            res.broadcasts.deep_view() == told(old(self)@, message@),
            res.listener_required == (message is WSConnection),
            res.command == command_for(message@),
            message matches Message::ChangePath(p) ==> final(self)@.output == Some(p@),
            message matches Message::EditNewDir(p) ==> final(self)@.new_dir == p@,
            message matches Message::ChoseFile(p) ==> final(self)@.downloads == p.deep_view(),
            message is ClearDownloadPath ==> final(self)@.downloads.len() == 0,
            message is AddPath && old(self)@.new_dir.len() > 0 ==> {
                &&& final(self)@.output == Some(old(self)@.new_dir)
                &&& final(self)@.new_dir.len() == 0
                &&& final(self)@.folders.len() == old(self)@.folders.len() + 1
                &&& final(self)@.folders.contains(trimmed(old(self)@.new_dir))
            },
            message is AddPath && old(self)@.new_dir.len() == 0 ==> final(self)@ == old(self)@,
            message is WSConnection ==> final(self)@.clients == old(self)@.clients + 1,
            message is WSClose ==> final(self)@.clients == old(self)@.clients - 1,
            res.command is PickFiles <==> message is OpenFileDialog,
            res.command is FocusWindow <==> message is FocusWindow,
            old(self).well_formed() ==> final(self).well_formed(),
    {
        let mut broadcasts: Vec<Message> = Vec::new();
        assert(broadcasts.deep_view() =~= Seq::<MessageView>::empty());
        let mut listener_required = false;
        let mut command = Command::Nothing;
        let mut echo = true;
        match &message {
            Message::ChangePath(p) => {
                self.output_path = Some(p.clone());
            },
            Message::EditNewDir(p) => {
                self.new_dir_input = p.clone();
            },
            Message::AddPath => {
                if !self.new_dir_input.as_str().is_empty() {
                    let mut names = copy_names(&self.current_dir);
                    names.push(trim(self.new_dir_input.as_str()));
                    proof {
                        let all = self@.folders.push(trimmed(self@.new_dir));
                        assert(names.deep_view() =~= all);
                        in_order_sorts(all);
                        all.to_multiset_ensures();
                        in_order(all).to_multiset_ensures();
                        assert(all[self@.folders.len() as int] == trimmed(self@.new_dir));
                        assert(all.contains(trimmed(self@.new_dir)));
                        assert(in_order(all).to_multiset().count(trimmed(self@.new_dir)) > 0);
                        assert(in_order(all).contains(trimmed(self@.new_dir)));
                    }
                    self.current_dir = sort_names(names);
                    self.output_path = Some(self.new_dir_input.clone());
                    self.new_dir_input = String::new();
                }
            },
            Message::OpenFileDialog => {
                command = Command::PickFiles;
                echo = false;
            },
            Message::ChoseFile(p) => {
                self.download_path = copy_names(p);
            },
            Message::ClearDownloadPath => {
                if self.download_path.len() == 0 {
                    echo = false;
                }
                self.download_path = Vec::new();
                assert(self@.downloads =~= Seq::<Seq<char>>::empty());
            },
            Message::Refresh => {
                echo = false;
            },
            Message::WSConnection => {
                self.clients_connected = self.clients_connected + 1;
                broadcasts = self.greet();
                listener_required = true;
                echo = false;
            },
            Message::WSClose => {
                self.clients_connected = self.clients_connected - 1;
                echo = false;
            },
            Message::FocusWindow => {
                command = Command::FocusWindow;
                echo = false;
            },
            Message::RecvExistingPaths(_) => {},
        }
        if echo {
            broadcasts.push(message);
            assert(broadcasts.deep_view() =~= seq![message@]);
        }
        Outcome { broadcasts, listener_required, command }
    }
}

/// The message for the files that were picked in the dialog, if any.
pub open spec fn choice_of(files: Option<Seq<Seq<char>>>) -> MessageView {
    match files {
        Some(files) => if files.len() > 0 {
            MessageView::ChoseFile(files)
        } else {
            MessageView::ClearDownloadPath
        },
        None => MessageView::ClearDownloadPath,
    }
}

/// The names in an optional list.
pub open spec fn names_of(files: Option<Vec<String>>) -> Option<Seq<Seq<char>>> {
    match files {
        Some(files) => Some(files.deep_view()),
        None => None,
    }
}

/// The message for the files that were picked in the dialog, if any.
pub fn picked(files: Option<Vec<String>>) -> (res: Message)
    ensures
        res@ == choice_of(names_of(files)),
        res@ == (match files {
            Some(files) => if files@.len() > 0 {
                MessageView::ChoseFile(files.deep_view())
            } else {
                MessageView::ClearDownloadPath
            },
            None => MessageView::ClearDownloadPath,
        }),
{
    match files {
        Some(files) => if files.len() > 0 {
            Message::ChoseFile(files)
        } else {
            Message::ClearDownloadPath
        },
        None => Message::ClearDownloadPath,
    }
}

/// The files that were chosen last are the files on offer, whatever was on offer
/// before: an earlier choice leaves no trace.
pub proof fn last_choice_is_on_offer(
    u: UploaderView,
    earlier: Seq<Seq<char>>,
    paths: Seq<Seq<char>>,
)
    ensures
        after(u, MessageView::ChoseFile(paths)).downloads == paths,
        after(after(u, MessageView::ChoseFile(earlier)), MessageView::ChoseFile(paths)) == after(
            u,
            MessageView::ChoseFile(paths),
        ),
        after(
            after(u, MessageView::ChoseFile(paths)),
            MessageView::ClearDownloadPath,
        ).downloads.len() == 0,
        after(
            after(u, MessageView::ClearDownloadPath),
            MessageView::ChoseFile(paths),
        ) == after(u, MessageView::ChoseFile(paths)),
{
}

/// The folder that was chosen last, and the name that was typed last, are the
/// ones that hold: earlier ones leave no trace.
pub proof fn last_word_holds(u: UploaderView, earlier: Seq<char>, text: Seq<char>)
    ensures
        after(u, MessageView::ChangePath(text)).output == Some(text),
        after(after(u, MessageView::ChangePath(earlier)), MessageView::ChangePath(text)) == after(
            u,
            MessageView::ChangePath(text),
        ),
        after(u, MessageView::EditNewDir(text)).new_dir == text,
        after(after(u, MessageView::EditNewDir(earlier)), MessageView::EditNewDir(text)) == after(
            u,
            MessageView::EditNewDir(text),
        ),
{
}

/// A name that is typed and added becomes the output folder as it was typed, and
/// is listed once more without the white space at its ends; the input is empty
/// again, so that adding once more does nothing. An empty name is not added.
pub proof fn typed_folder_is_added(u: UploaderView, name: Seq<char>)
    ensures
        ({
            let added = after(after(u, MessageView::EditNewDir(name)), MessageView::AddPath);
            &&& name.len() > 0 ==> {
                &&& added.output == Some(name)
                &&& added.folders.to_multiset() == u.folders.to_multiset().insert(trimmed(name))
                &&& is_sorted(added.folders)
            }
            &&& name.len() == 0 ==> added.output == u.output && added.folders == u.folders
            &&& added.new_dir.len() == 0
            &&& after(added, MessageView::AddPath) == added
            &&& added.downloads == u.downloads
            &&& added.clients == u.clients
            &&& added.instructions == u.instructions
        }),
{
    in_order_sorts(u.folders.push(trimmed(name)));
    u.folders.to_multiset_ensures();
}

/// What a message is not about, it leaves as it is.
pub proof fn message_leaves_the_rest(u: UploaderView, m: MessageView)
    ensures
        !(m is ChangePath) && !(m is AddPath) ==> after(u, m).output == u.output,
        !(m is EditNewDir) && !(m is AddPath) ==> after(u, m).new_dir == u.new_dir,
        !(m is ChoseFile) && !(m is ClearDownloadPath) ==> after(u, m).downloads == u.downloads,
        !(m is AddPath) ==> after(u, m).folders == u.folders,
        m is AddPath && u.new_dir.len() == 0 ==> after(u, m) == u,
        m is OpenFileDialog || m is Refresh || m is FocusWindow || m is RecvExistingPaths ==> after(
            u,
            m,
        ) == u,
        after(u, MessageView::WSConnection).clients == u.clients + 1,
        after(u, MessageView::WSClose).clients == u.clients - 1,
{
}

/// The browsers are told of a message that one of them could have sent, and of
/// the clearing of files exactly when there is something to clear. They are told
/// nothing of what concerns the window alone, nor that another browser has gone.
pub proof fn browsers_are_told(u: UploaderView, m: MessageView)
    ensures
        m is ChangePath || m is EditNewDir || m is AddPath || m is ChoseFile
            || m is RecvExistingPaths ==> told(u, m) == seq![m],
        m is ClearDownloadPath && after(u, m).downloads != u.downloads ==> told(u, m) == seq![m],
        m is ClearDownloadPath && after(u, m).downloads == u.downloads ==> told(u, m).len() == 0,
        m is OpenFileDialog || m is Refresh || m is FocusWindow || m is WSClose ==> told(
            u,
            m,
        ).len() == 0,
        forall|i: int|
            0 <= i < told(u, m).len() && !(m is WSConnection) ==> #[trigger] told(u, m)[i] == m,
{
    if m is ClearDownloadPath && u.downloads.len() == 0 {
        assert(u.downloads =~= after(u, m).downloads);
    }
}

/// A browser that has just connected is told, in this order, the name that has
/// been typed, the folders, where uploads go if that is settled, and the files on
/// offer if there are any; and nothing else.
pub proof fn greeting_tells_everything(u: UploaderView)
    ensures
        ({
            let g = told(u, MessageView::WSConnection);
            let outputs: int = if u.output is Some {
                1
            } else {
                0
            };
            let offers: int = if u.downloads.len() > 0 {
                1
            } else {
                0
            };
            &&& g.len() == 2 + outputs + offers
            &&& g[0] == MessageView::EditNewDir(u.new_dir)
            &&& g[1] == MessageView::RecvExistingPaths(u.folders)
            &&& u.output is Some ==> g[2] == MessageView::ChangePath(u.output->0)
            &&& u.downloads.len() > 0 ==> g[2 + outputs] == MessageView::ChoseFile(u.downloads)
        }),
{
}

/// The window opens the dialog when it is asked to, comes to the front when it is
/// asked to, and does nothing else about messages.
pub proof fn window_does_what_it_is_asked(m: MessageView)
    ensures
        command_for(MessageView::OpenFileDialog) is PickFiles,
        command_for(MessageView::FocusWindow) is FocusWindow,
        !(m is OpenFileDialog) && !(m is FocusWindow) ==> command_for(m) is Nothing,
{
}

/// At first, the folders to choose from are those of the working directory whose
/// names do not begin with a dot, but for `dist`: an entry adds its name exactly
/// if it is such a folder, whatever other entries there are.
pub proof fn entry_adds_its_name(before: Seq<DirEntry>, e: DirEntry, after: Seq<DirEntry>)
    ensures
        upload_folders(before + seq![e] + after) == upload_folders(before) + (if e.is_dir && (
        e.name@.len() == 0 || e.name@[0] != '.') && e.name@ != "dist"@ {
            seq![e.name@]
        } else {
            Seq::empty()
        }) + upload_folders(after),
    decreases after.len(),
{
    reveal_strlit(".");
    let all = before + seq![e] + after;
    if after.len() == 0 {
        assert(all.drop_last() =~= before);
        assert(all.last() == e);
        let dot = "."@;
        assert(dot =~= seq!['.']);
        if e.name@.len() > 0 {
            assert(e.name@.subrange(0, 1) =~= seq![e.name@[0]]);
            if e.name@[0] == '.' {
                assert(dot =~= e.name@.subrange(0, 1));
            } else {
                assert(dot[0] != e.name@.subrange(0, 1)[0]);
            }
        }
    } else {
        entry_adds_its_name(before, e, after.drop_last());
        assert(all.drop_last() =~= before + seq![e] + after.drop_last());
        assert(all.last() == after.last());
    }
    assert(upload_folders(all) =~= upload_folders(before) + (if e.is_dir && (e.name@.len() == 0
        || e.name@[0] != '.') && e.name@ != "dist"@ {
        seq![e.name@]
    } else {
        Seq::empty()
    }) + upload_folders(after));
}

/// At first, the folders are those of the working directory, in order; uploads go
/// to the first, if there is one; nothing has been typed, nothing is on offer,
/// and nobody is connected. The instructions hold the address of the desktop and
/// its port, if it has an address.
pub proof fn desktop_at_first(entries: Seq<DirEntry>, ip: Option<Seq<char>>)
    ensures
        ({
            let u = initial(entries, ip);
            &&& is_sorted(u.folders)
            &&& u.folders.to_multiset() == upload_folders(entries).to_multiset()
            &&& upload_folders(entries).len() > 0 ==> u.output == Some(u.folders[0])
            &&& upload_folders(entries).len() == 0 ==> u.output is None
            &&& u.new_dir.len() == 0
            &&& u.downloads.len() == 0
            &&& u.clients == 0
            &&& ip matches Some(ip) ==> u.instructions == "Open a web browser and type in "@ + (ip
                + ":8080"@)
            &&& ip is None ==> u.instructions
                == "You need to connect your computer to WiFi to use this uploader. Once connected, restart this app"@
        }),
{
    in_order_sorts(upload_folders(entries));
    if let Some(ip) = ip {
        assert("Open a web browser and type in "@ + ip + ":8080"@
            =~= "Open a web browser and type in "@ + (ip + ":8080"@));
    }
}

/// After the dialog, the files that were picked are on offer, and none are if
/// none were picked; nothing else has changed.
pub proof fn picked_files_are_on_offer(u: UploaderView, files: Option<Seq<Seq<char>>>)
    ensures
        ({
            let now = after(u, choice_of(files));
            &&& files is Some ==> now.downloads == files->0
            &&& files is None ==> now.downloads.len() == 0
            &&& now == (UploaderView { downloads: now.downloads, ..u })
            &&& choice_of(files) matches MessageView::ChoseFile(paths) ==> paths.len() > 0
        }),
{
    if files is Some && files->0.len() == 0 {
        assert(files->0 =~= Seq::empty());
    }
}

} // verus!
