//! The page in the browser: what it shows, and how it follows the messages of
//! the desktop.

use vstd::prelude::*;
use vstd::string::*;

use crate::links::{can_link, lead_to, links_for, Links, LinksView};
use crate::message::{Message, MessageView};

verus! {

/// A change to the page.
pub enum Edit {
    /// Append a folder to the list, choose it, and empty the input for a new one.
    AddPath(String),
    /// Show the links for downloads.
    UnhideTransferButtons,
    /// Hide the links for downloads.
    HideTransferButtons,
    /// Let the links for downloads lead here.
    SetTransferButtons(Links),
    /// Empty the list of folders.
    ClearDirSelect,
    /// Append a folder to the list.
    AppendPath(String),
}

/// A change to the page, with its texts as character sequences.
pub enum EditView {
    AddPath(Seq<char>),
    UnhideTransferButtons,
    HideTransferButtons,
    SetTransferButtons(LinksView),
    ClearDirSelect,
    AppendPath(Seq<char>),
}

impl View for Edit {
    type V = EditView;

    open spec fn view(&self) -> EditView {
        match self {
            Edit::AddPath(p) => EditView::AddPath(p@),
            Edit::UnhideTransferButtons => EditView::UnhideTransferButtons,
            Edit::HideTransferButtons => EditView::HideTransferButtons,
            Edit::SetTransferButtons(links) => EditView::SetTransferButtons(links@),
            Edit::ClearDirSelect => EditView::ClearDirSelect,
            Edit::AppendPath(p) => EditView::AppendPath(p@),
        }
    }
}

impl DeepView for Edit {
    type V = EditView;

    open spec fn deep_view(&self) -> EditView {
        self@
    }
}

/// What the page shows: the folders to choose from and the one chosen, the
/// input for a new one, and the links for downloads.
#[verifier::ext_equal]
pub struct PageView {
    pub folders: Seq<Seq<char>>,
    pub chosen: Option<Seq<char>>,
    pub new_dir: Seq<char>,
    pub links_shown: bool,
    pub links: LinksView,
}

impl PageView {
    /// After a folder has been appended to the list. A list from which nothing
    /// is chosen chooses its first entry.
    pub open spec fn appended(self, path: Seq<char>) -> PageView {
        let folders = self.folders.push(path);
        PageView {
            folders,
            chosen: if self.chosen is Some {
                self.chosen
            } else {
                Some(folders[0])
            },
            ..self
        }
    }

    /// After a folder has been chosen. Nothing is chosen when it is not listed.
    pub open spec fn choosing(self, path: Seq<char>) -> PageView {
        PageView {
            chosen: if self.folders.contains(path) {
                Some(path)
            } else {
                None
            },
            ..self
        }
    }

    /// After a change.
    pub open spec fn edited(self, edit: EditView) -> PageView {
        match edit {
            EditView::AddPath(p) => PageView {
                new_dir: Seq::empty(),
                ..self.appended(p).choosing(p)
            },
            EditView::UnhideTransferButtons => PageView { links_shown: true, ..self },
            EditView::HideTransferButtons => PageView { links_shown: false, ..self },
            EditView::SetTransferButtons(links) => PageView { links, ..self },
            EditView::ClearDirSelect => PageView { folders: Seq::empty(), chosen: None, ..self },
            EditView::AppendPath(p) => self.appended(p),
        }
    }

    /// After changes, one after the other.
    pub open spec fn edited_all(self, edits: Seq<EditView>) -> PageView
        decreases edits.len(),
    {
        if edits.len() == 0 {
            self
        } else {
            self.edited_all(edits.drop_last()).edited(edits.last())
        }
    }
}

/// Changes that wait to be made to the page.
pub struct Channel {
    edits: Vec<Edit>,
}

impl View for Channel {
    type V = Seq<EditView>;

    closed spec fn view(&self) -> Seq<EditView> {
        self.edits.deep_view()
    }
}

impl Default for Channel {
    fn default() -> (res: Self)
        ensures
            res@ == Seq::<EditView>::empty(),
    {
        let edits: Vec<Edit> = Vec::new();
        assert(edits.deep_view() =~= Seq::<EditView>::empty());
        Channel { edits }
    }
}

impl Channel {
    fn push(&mut self, edit: Edit)
        ensures
            final(self)@ == old(self)@.push(edit@),
    {
        self.edits.push(edit);
        assert(self.edits.deep_view() =~= old(self).edits.deep_view().push(edit@));
    }

    /// Appends a folder to the list, chooses it, and empties the input.
    pub fn add_path(&mut self, value: &str)
        ensures
            final(self)@ == old(self)@.push(EditView::AddPath(value@)),
    {
        self.push(Edit::AddPath(value.to_owned()));
    }

    /// Shows the links for downloads.
    pub fn unhide_transfer_buttons(&mut self)
        ensures
            final(self)@ == old(self)@.push(EditView::UnhideTransferButtons),
    {
        self.push(Edit::UnhideTransferButtons);
    }

    /// Hides the links for downloads.
    pub fn hide_transfer_buttons(&mut self)
        ensures
            final(self)@ == old(self)@.push(EditView::HideTransferButtons),
    {
        self.push(Edit::HideTransferButtons);
    }

    /// Sets where the links for downloads lead.
    pub fn set_transfer_buttons(&mut self, uncompressed: String, zst: String, gz: String)
        ensures
            final(self)@ == old(self)@.push(
                EditView::SetTransferButtons(
                    (LinksView { uncompressed: uncompressed@, zst: zst@, gz: gz@ }),
                ),
            ),
    {
        self.push(Edit::SetTransferButtons(Links { uncompressed, zst, gz }));
    }

    /// Empties the list of folders.
    pub fn clear_dir_select(&mut self)
        ensures
            final(self)@ == old(self)@.push(EditView::ClearDirSelect),
    {
        self.push(Edit::ClearDirSelect);
    }

    /// Appends a folder to the list.
    pub fn append_path(&mut self, path: &str)
        ensures
            final(self)@ == old(self)@.push(EditView::AppendPath(path@)),
    {
        self.push(Edit::AppendPath(path.to_owned()));
    }

    /// Hands out the changes that wait, in order.
    pub fn flush(&mut self) -> (res: Vec<Edit>)
        ensures
            res.deep_view() == old(self)@,
            final(self)@ == Seq::<EditView>::empty(),
    {
        let mut edits: Vec<Edit> = Vec::new();
        core::mem::swap(&mut edits, &mut self.edits);
        assert(self.edits.deep_view() =~= Seq::<EditView>::empty());
        edits
    }
}

/// What the page does about a message, besides the changes put into its channel.
#[derive(Debug, PartialEq, Eq)]
pub enum Reaction {
    /// Let the input for a new folder read like this.
    SetNewDir(String),
    /// Choose this folder.
    Choose(String),
    /// Make the changes in the channel.
    Flush,
    /// Write the message to the log.
    Log,
}

/// A reaction with its text as a character sequence.
pub enum ReactionView {
    SetNewDir(Seq<char>),
    Choose(Seq<char>),
    Flush,
    Log,
}

impl View for Reaction {
    type V = ReactionView;

    open spec fn view(&self) -> ReactionView {
        match self {
            Reaction::SetNewDir(s) => ReactionView::SetNewDir(s@),
            Reaction::Choose(p) => ReactionView::Choose(p@),
            Reaction::Flush => ReactionView::Flush,
            Reaction::Log => ReactionView::Log,
        }
    }
}

/// The reaction to a message.
pub open spec fn reaction_to(m: MessageView) -> ReactionView {
    match m {
        MessageView::EditNewDir(s) => ReactionView::SetNewDir(s),
        MessageView::ChangePath(p) => ReactionView::Choose(p),
        MessageView::AddPath
        | MessageView::ChoseFile(_)
        | MessageView::ClearDownloadPath
        | MessageView::RecvExistingPaths(_) => ReactionView::Flush,
        _ => ReactionView::Log,
    }
}

/// The changes that append folders to the list.
pub open spec fn appends(paths: Seq<Seq<char>>) -> Seq<EditView> {
    paths.map_values(|p: Seq<char>| EditView::AppendPath(p))
}

/// The changes for a message, when the input for a new folder reads `new_dir`
/// and `links` lead to the files on offer. As on the desktop, no folder is added
/// while the input is empty.
pub open spec fn edits_for(m: MessageView, new_dir: Seq<char>, links: LinksView) -> Seq<EditView> {
    match m {
        MessageView::AddPath => if new_dir.len() > 0 {
            seq![EditView::AddPath(new_dir)]
        } else {
            Seq::empty()
        },
        MessageView::ChoseFile(_) => seq![
            EditView::UnhideTransferButtons,
            EditView::SetTransferButtons(links),
        ],
        MessageView::ClearDownloadPath => seq![EditView::HideTransferButtons],
        MessageView::RecvExistingPaths(paths) => seq![EditView::ClearDirSelect] + appends(paths),
        _ => Seq::empty(),
    }
}

/// The page after its reaction to a message.
pub open spec fn shown(page: PageView, m: MessageView, links: LinksView) -> PageView {
    let page = page.edited_all(edits_for(m, page.new_dir, links));
    match reaction_to(m) {
        ReactionView::SetNewDir(s) => PageView { new_dir: s, ..page },
        ReactionView::Choose(p) => page.choosing(p),
        _ => page,
    }
}

/// The page after its reactions to messages, one after the other.
pub open spec fn shown_all(page: PageView, ms: Seq<MessageView>, links: LinksView) -> PageView
    decreases ms.len(),
{
    if ms.len() == 0 {
        page
    } else {
        shown(shown_all(page, ms.drop_last(), links), ms.last(), links)
    }
}

/// A message that the page can take: files on offer are such that links can be
/// made to them.
pub open spec fn acceptable(m: MessageView) -> bool {
    m matches MessageView::ChoseFile(paths) ==> can_link(paths)
}

/// Follows a message of the desktop, while the input for a new folder reads
/// `new_dir`, and given links for the files on offer.
pub fn follow(channel: &mut Channel, message: &Message, new_dir: &str, links: Links) -> (res:
    Reaction)
    ensures
        res@ == reaction_to(message@),
        final(channel)@ == old(channel)@ + edits_for(message@, new_dir@, links@),
{
    let ghost before = channel@;
    let res = match message {
        Message::EditNewDir(s) => Reaction::SetNewDir(s.clone()),
        Message::AddPath => {
            if !new_dir.is_empty() {
                channel.add_path(new_dir);
            }
            Reaction::Flush
        },
        Message::ChoseFile(_) => {
            channel.unhide_transfer_buttons();
            channel.set_transfer_buttons(links.uncompressed, links.zst, links.gz);
            Reaction::Flush
        },
        Message::ClearDownloadPath => {
            channel.hide_transfer_buttons();
            Reaction::Flush
        },
        Message::ChangePath(p) => Reaction::Choose(p.clone()),
        Message::RecvExistingPaths(paths) => {
            channel.clear_dir_select();
            let ghost all = paths.deep_view();
            assert(channel@ =~= before + seq![EditView::ClearDirSelect] + appends(all.take(0)));
            for i in 0..paths.len()
                invariant
                    all == paths.deep_view(),
                    channel@ == before + seq![EditView::ClearDirSelect] + appends(
                        all.take(i as int),
                    ),
            {
                channel.append_path(paths[i].as_str());
                assert(appends(all.take(i + 1)) =~= appends(all.take(i as int)).push(
                    EditView::AppendPath(all[i as int]),
                ));
                assert(channel@ =~= before + seq![EditView::ClearDirSelect] + appends(
                    all.take(i + 1),
                ));
            }
            assert(all.take(all.len() as int) =~= all);
            Reaction::Flush
        },
        _ => Reaction::Log,
    };
    assert(channel@ =~= before + edits_for(message@, new_dir@, links@));
    res
}

/// Takes in a message of the desktop, while the input for a new folder reads
/// `new_dir`.
pub fn receive(channel: &mut Channel, message: &Message, new_dir: &str) -> (res: Reaction)
    requires
        acceptable(message@),
    ensures
        res@ == reaction_to(message@),
        exists|links: LinksView|
            {
                &&& message@ matches MessageView::ChoseFile(paths) ==> lead_to(links, paths)
                &&& final(channel)@ == old(channel)@ + #[trigger] edits_for(
                    message@,
                    new_dir@,
                    links,
                )
            },
{
    let links = match message {
        Message::ChoseFile(paths) => links_for(paths),
        _ => Links { uncompressed: String::new(), zst: String::new(), gz: String::new() },
    };
    let ghost chosen = links@;
    let res = follow(channel, message, new_dir, links);
    assert(channel@ == old(channel)@ + edits_for(message@, new_dir@, chosen));
    res
}

/// The address of the desktop for messages, given its host name.
pub open spec fn socket_address(hostname: Seq<char>) -> Seq<char> {
    "ws://"@ + hostname + ":8080/ws"@
}

/// The address of the desktop for messages, given its host name.
pub fn socket_url(hostname: &str) -> (res: String)
    ensures
        res@ == socket_address(hostname@),
        res@ == "ws://"@ + hostname@ + ":8080/ws"@,
{
    "ws://".to_owned().concat(hostname).concat(":8080/ws")
}

/// What the desktop tells a page changes what it shows: the name for a new folder
/// reads as told; the folder told of is chosen; the folders listed are those told
/// of, in order, and no others; files told of show the links that were made for
/// them; and when they are cleared the links are hidden. A folder that is added
/// bears the name that the input reads, if it reads one. Nothing else is shown
/// differently.
pub proof fn page_shows_what_it_is_told(
    page: PageView,
    text: Seq<char>,
    paths: Seq<Seq<char>>,
    links: LinksView,
)
    ensures
        reaction_to(MessageView::EditNewDir(text)) == ReactionView::SetNewDir(text),
        edits_for(MessageView::EditNewDir(text), page.new_dir, links).len() == 0,
        reaction_to(MessageView::ChangePath(text)) == ReactionView::Choose(text),
        edits_for(MessageView::ChangePath(text), page.new_dir, links).len() == 0,
        ({
            let list = edits_for(
                MessageView::RecvExistingPaths(paths),
                page.new_dir,
                links,
            );
            &&& list.len() == paths.len() + 1
            &&& list[0] is ClearDirSelect
            &&& forall|i: int|
                0 <= i < paths.len() ==> list[i + 1] == EditView::AppendPath(#[trigger] paths[i])
        }),
        reaction_to(MessageView::RecvExistingPaths(paths)) is Flush,
        page.edited_all(edits_for(MessageView::ChoseFile(paths), page.new_dir, links)) == (
        PageView { links_shown: true, links, ..page }),
        reaction_to(MessageView::ChoseFile(paths)) is Flush,
        page.edited_all(edits_for(MessageView::ClearDownloadPath, page.new_dir, links)) == (
        PageView { links_shown: false, ..page }),
        reaction_to(MessageView::ClearDownloadPath) is Flush,
        text.len() > 0 ==> edits_for(MessageView::AddPath, text, links) == seq![
            EditView::AddPath(text),
        ],
        text.len() == 0 ==> edits_for(MessageView::AddPath, text, links).len() == 0,
        reaction_to(MessageView::AddPath) is Flush,
{
    reveal_with_fuel(PageView::edited_all, 3);
    let offer = edits_for(MessageView::ChoseFile(paths), page.new_dir, links);
    assert(offer.drop_last() =~= seq![EditView::UnhideTransferButtons]);
    assert(offer.drop_last().drop_last() =~= Seq::<EditView>::empty());
    let clear = edits_for(MessageView::ClearDownloadPath, page.new_dir, links);
    assert(clear.drop_last() =~= Seq::<EditView>::empty());
}

/// A message that is not for pages changes nothing on a page and goes to the log.
pub proof fn page_logs_the_rest(m: MessageView, new_dir: Seq<char>, links: LinksView)
    ensures
        reaction_to(m) is Log <==> (m is OpenFileDialog || m is Refresh || m is WSConnection
            || m is WSClose || m is FocusWindow),
        reaction_to(m) is Log ==> edits_for(m, new_dir, links).len() == 0,
{
}

/// The address for messages is on the host that the page came from, at the port
/// that the desktop tells people to type in.
pub proof fn messages_go_to_the_desktop(hostname: Seq<char>)
    ensures
        socket_address(hostname) == "ws://"@ + (hostname + ":8080"@) + "/ws"@,
        crate::uploader::instructions_for(Some(hostname)) == "Open a web browser and type in "@ + (
        hostname + ":8080"@),
{
    reveal_strlit(":8080/ws");
    reveal_strlit(":8080");
    reveal_strlit("/ws");
    assert(":8080/ws"@ =~= ":8080"@ + "/ws"@);
    assert(socket_address(hostname) =~= "ws://"@ + (hostname + ":8080"@) + "/ws"@);
    assert(crate::uploader::instructions_for(Some(hostname))
        =~= "Open a web browser and type in "@ + (hostname + ":8080"@));
}

} // verus!
