//! What the desktop and the browsers tell each other.

use vstd::prelude::*;

verus! {

/// A message between the desktop and the browsers, or an event of the desktop
/// window.
#[derive(Debug, PartialEq, Eq)]
pub enum Message {
    /// Uploads go to this folder from now on.
    ChangePath(String),
    /// The name of the folder to create now reads like this.
    EditNewDir(String),
    /// These files are on offer for download.
    ChoseFile(Vec<String>),
    /// Let the person at the desktop pick files to offer.
    OpenFileDialog,
    /// Nothing is on offer for download any more.
    ClearDownloadPath,
    /// Something on the screen has changed.
    Refresh,
    /// Create the folder whose name was typed, and upload to it.
    AddPath,
    /// These are the folders to choose from.
    RecvExistingPaths(Vec<String>),
    /// A browser has connected.
    WSConnection,
    /// A browser has gone.
    WSClose,
    /// Bring the desktop window to the front.
    FocusWindow,
}

/// A message with its texts as character sequences.
pub enum MessageView {
    ChangePath(Seq<char>),
    EditNewDir(Seq<char>),
    ChoseFile(Seq<Seq<char>>),
    OpenFileDialog,
    ClearDownloadPath,
    Refresh,
    AddPath,
    RecvExistingPaths(Seq<Seq<char>>),
    WSConnection,
    WSClose,
    FocusWindow,
}

impl View for Message {
    type V = MessageView;

    open spec fn view(&self) -> MessageView {
        match self {
            Message::ChangePath(p) => MessageView::ChangePath(p@),
            Message::EditNewDir(p) => MessageView::EditNewDir(p@),
            Message::ChoseFile(paths) => MessageView::ChoseFile(paths.deep_view()),
            Message::OpenFileDialog => MessageView::OpenFileDialog,
            Message::ClearDownloadPath => MessageView::ClearDownloadPath,
            Message::Refresh => MessageView::Refresh,
            Message::AddPath => MessageView::AddPath,
            Message::RecvExistingPaths(paths) => MessageView::RecvExistingPaths(
                paths.deep_view(),
            ),
            Message::WSConnection => MessageView::WSConnection,
            Message::WSClose => MessageView::WSClose,
            Message::FocusWindow => MessageView::FocusWindow,
        }
    }
}

impl DeepView for Message {
    type V = MessageView;

    open spec fn deep_view(&self) -> MessageView {
        self@
    }
}

/// A copy of a list of names.
pub fn copy_names(names: &Vec<String>) -> (res: Vec<String>)
    ensures
        res.deep_view() == names.deep_view(),
{
    let res = names.clone();
    assert(res.deep_view() =~= names.deep_view());
    res
}

} // verus!
