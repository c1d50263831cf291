//! The page and the desktop show the same: what the desktop tells a page keeps
//! the page in step with it.

use vstd::prelude::*;

use crate::links::{lead_to, LinksView};
use crate::message::MessageView;
use crate::page::{appends, edits_for, shown, shown_all, EditView, PageView};
use crate::text::{in_order, in_order_sorts, is_sorted, trimmed};
use crate::uploader::{
    after, greeting, initial, told, upload_folders, DirEntry, UploaderView,
};

verus! {

/// The page shows what the desktop shows: the same folders, the same one
/// chosen, the same name for a new one, and links when files are on offer, which
/// lead to them.
pub open spec fn in_step(u: UploaderView, page: PageView) -> bool {
    &&& page.folders.to_multiset() == u.folders.to_multiset()
    &&& page.chosen == u.output
    &&& page.new_dir == u.new_dir
    &&& page.links_shown == (u.downloads.len() > 0)
    &&& u.downloads.len() > 0 ==> lead_to(page.links, u.downloads)
}

/// The folder that uploads go to is one of those listed; there is none only
/// when no folders are listed.
pub open spec fn output_listed(u: UploaderView) -> bool {
    match u.output {
        Some(p) => u.folders.contains(p),
        None => u.folders.len() == 0,
    }
}

/// A message after which the page stays in step: a folder is chosen from those
/// listed; a folder is added whose name has no white space at its ends; files are offered, not none; and a list of folders that is sent to
/// the desktop says what the desktop has, the output folder first.
pub open spec fn keeps_step(u: UploaderView, m: MessageView) -> bool {
    match m {
        MessageView::ChangePath(p) => u.folders.contains(p),
        MessageView::AddPath => trimmed(u.new_dir) == u.new_dir,
        MessageView::ChoseFile(paths) => paths.len() > 0,
        MessageView::RecvExistingPaths(paths) => {
            &&& paths.to_multiset() == u.folders.to_multiset()
            &&& paths.len() > 0 ==> u.output == Some(paths[0])
        },
        _ => true,
    }
}

/// Appending folders to an emptied list leaves those folders, the first chosen.
proof fn append_all(page: PageView, paths: Seq<Seq<char>>)
    ensures
        page.edited_all(seq![EditView::ClearDirSelect] + appends(paths)) == (PageView {
            folders: paths,
            chosen: if paths.len() > 0 {
                Some(paths[0])
            } else {
                None
            },
            ..page
        }),
    decreases paths.len(),
{
    let edits = seq![EditView::ClearDirSelect] + appends(paths);
    if paths.len() == 0 {
        assert(edits.drop_last() =~= Seq::<EditView>::empty());
        assert(edits.last() == EditView::ClearDirSelect);
        assert(page.edited_all(edits.drop_last()) == page);
        assert(paths =~= Seq::empty());
    } else {
        append_all(page, paths.drop_last());
        assert(edits.drop_last() =~= seq![EditView::ClearDirSelect] + appends(paths.drop_last()));
        assert(edits.last() == EditView::AppendPath(paths.last()));
        assert(paths =~= paths.drop_last().push(paths.last()));
    }
}

/// How a page makes links to files on offer.
pub open spec fn makes_links(make: spec_fn(Seq<Seq<char>>) -> LinksView) -> bool {
    forall|paths: Seq<Seq<char>>| paths.len() > 0 ==> lead_to(#[trigger] make(paths), paths)
}

/// The links that a page makes for a message: to the files that the message
/// itself offers.
pub open spec fn links_made(
    m: MessageView,
    make: spec_fn(Seq<Seq<char>>) -> LinksView,
) -> LinksView {
    match m {
        MessageView::ChoseFile(paths) => make(paths),
        _ => make(Seq::empty()),
    }
}

/// The page after it has taken in messages, one after the other, and made links
/// to the files that each of them offers.
pub open spec fn followed_all(
    page: PageView,
    ms: Seq<MessageView>,
    make: spec_fn(Seq<Seq<char>>) -> LinksView,
) -> PageView
    decreases ms.len(),
{
    if ms.len() == 0 {
        page
    } else {
        shown(followed_all(page, ms.drop_last(), make), ms.last(), links_made(ms.last(), make))
    }
}

/// A page that makes the same links for all messages shows them throughout.
pub proof fn same_links_throughout(page: PageView, ms: Seq<MessageView>, links: LinksView)
    ensures
        followed_all(page, ms, |paths: Seq<Seq<char>>| links) == shown_all(page, ms, links),
    decreases ms.len(),
{
    if ms.len() > 0 {
        same_links_throughout(page, ms.drop_last(), links);
    }
}

proof fn show_one(
    page: PageView,
    m: MessageView,
    make: spec_fn(Seq<Seq<char>>) -> LinksView,
)
    ensures
        followed_all(page, seq![m], make) == shown(page, m, links_made(m, make)),
        followed_all(page, Seq::empty(), make) == page,
{
    assert(seq![m].drop_last() =~= Seq::<MessageView>::empty());
    assert(followed_all(page, seq![m].drop_last(), make) == page);
}

proof fn show_concat(
    page: PageView,
    a: Seq<MessageView>,
    b: Seq<MessageView>,
    make: spec_fn(Seq<Seq<char>>) -> LinksView,
)
    ensures
        followed_all(page, a + b, make) == followed_all(followed_all(page, a, make), b, make),
    decreases b.len(),
{
    if b.len() == 0 {
        assert(a + b =~= a);
    } else {
        assert((a + b).drop_last() =~= a + b.drop_last());
        show_concat(page, a, b.drop_last(), make);
    }
}

/// What the reaction to each message leaves on the page.
proof fn show_effect(page: PageView, m: MessageView, links: LinksView)
    ensures
        m matches MessageView::EditNewDir(s) ==> shown(page, m, links) == (PageView {
            new_dir: s,
            ..page
        }),
        m matches MessageView::ChangePath(p) ==> shown(page, m, links) == page.choosing(p),
        m is AddPath ==> shown(page, m, links) == (if page.new_dir.len() > 0 {
            page.edited(EditView::AddPath(page.new_dir))
        } else {
            page
        }),
        m is ChoseFile ==> shown(page, m, links) == (PageView { links_shown: true, links, ..page }),
        m is ClearDownloadPath ==> shown(page, m, links) == (PageView { links_shown: false, ..page }),
        m matches MessageView::RecvExistingPaths(paths) ==> shown(page, m, links) == (PageView {
            folders: paths,
            chosen: if paths.len() > 0 {
                Some(paths[0])
            } else {
                None
            },
            ..page
        }),
{
    reveal_with_fuel(PageView::edited_all, 3);
    match m {
        MessageView::RecvExistingPaths(paths) => {
            append_all(page, paths);
        },
        MessageView::ChoseFile(_) => {
            let edits = edits_for(m, page.new_dir, links);
            assert(edits.drop_last() =~= seq![EditView::UnhideTransferButtons]);
            assert(edits.drop_last().drop_last() =~= Seq::<EditView>::empty());
        },
        _ => {
            let edits = edits_for(m, page.new_dir, links);
            if edits.len() == 1 {
                assert(edits.drop_last() =~= Seq::<EditView>::empty());
            }
        },
    }
}

/// A page that has just connected is in step with the desktop once it has taken
/// in what it is greeted with; and so is every other page that was in step. Its
/// links, made to the files that the greeting offers, lead to the files on offer.
pub proof fn greeting_brings_in_step(
    u: UploaderView,
    page: PageView,
    make: spec_fn(Seq<Seq<char>>) -> LinksView,
)
    requires
        output_listed(u),
        page.links_shown ==> u.downloads.len() > 0,
        makes_links(make),
    ensures
        in_step(u, followed_all(page, greeting(u), make)),
{
    let new_dir = MessageView::EditNewDir(u.new_dir);
    let list = MessageView::RecvExistingPaths(u.folders);
    let first = seq![new_dir, list];
    let output = match u.output {
        Some(p) => seq![MessageView::ChangePath(p)],
        None => Seq::empty(),
    };
    let offer = if u.downloads.len() > 0 {
        seq![MessageView::ChoseFile(u.downloads)]
    } else {
        Seq::empty()
    };
    assert(greeting(u) =~= first + output + offer);
    assert(first =~= seq![new_dir] + seq![list]);
    show_concat(page, first + output, offer, make);
    show_concat(page, first, output, make);
    show_concat(page, seq![new_dir], seq![list], make);
    show_one(page, new_dir, make);
    show_effect(page, new_dir, links_made(new_dir, make));
    let p1 = shown(page, new_dir, links_made(new_dir, make));
    show_one(p1, list, make);
    show_effect(p1, list, links_made(list, make));
    let p2 = shown(p1, list, links_made(list, make));
    assert(followed_all(page, first, make) == p2);
    let p3 = followed_all(p2, output, make);
    match u.output {
        Some(p) => {
            let choice = MessageView::ChangePath(p);
            show_one(p2, choice, make);
            show_effect(p2, choice, links_made(choice, make));
        },
        None => {
            show_one(p2, list, make);
        },
    }
    assert(p3.chosen == u.output);
    let offered = MessageView::ChoseFile(u.downloads);
    show_one(p3, offered, make);
    show_effect(p3, offered, links_made(offered, make));
}

/// What the desktop tells the pages about a message keeps a page in step that
/// was, and keeps the output folder among those listed. The page makes links to
/// the files that it is told of; they lead to the files on offer.
pub proof fn told_keeps_in_step(
    u: UploaderView,
    page: PageView,
    m: MessageView,
    make: spec_fn(Seq<Seq<char>>) -> LinksView,
)
    requires
        output_listed(u),
        in_step(u, page),
        keeps_step(u, m),
        makes_links(make),
    ensures
        in_step(after(u, m), followed_all(page, told(u, m), make)),
        output_listed(after(u, m)),
{
    show_one(page, m, make);
    show_effect(page, m, links_made(m, make));
    match m {
        MessageView::ChangePath(p) => {
            same_members(page.folders, u.folders, p);
        },
        MessageView::AddPath => if u.new_dir.len() > 0 {
            let name = u.new_dir;
            let all = u.folders.push(name);
            in_order_sorts(all);
            page.folders.to_multiset_ensures();
            u.folders.to_multiset_ensures();
            let grown = page.folders.push(name);
            assert(grown[page.folders.len() as int] == name);
            assert(grown.contains(name));
            assert(all[u.folders.len() as int] == name);
            assert(all.contains(name));
            same_members(in_order(all), all, name);
        },
        MessageView::ClearDownloadPath => {
            if u.downloads.len() == 0 {
                assert(u.downloads =~= Seq::empty());
            }
        },
        MessageView::RecvExistingPaths(paths) => {
            paths.to_multiset_ensures();
            u.folders.to_multiset_ensures();
            assert(paths.len() == u.folders.len());
            if paths.len() == 0 && u.output is Some {
                assert(u.folders.contains(u.output->0));
            }
        },
        MessageView::WSConnection => {
            greeting_brings_in_step(u, page, make);
        },
        _ => {},
    }
}

/// The desktop starts with its output folder among those listed.
pub proof fn output_listed_at_first(entries: Seq<DirEntry>, ip: Option<Seq<char>>)
    ensures
        output_listed(initial(entries, ip)),
{
    let folders = initial(entries, ip).folders;
    if folders.len() > 0 {
        assert(folders.contains(folders[0]));
    }
}

/// The desktop after messages, one after the other.
pub open spec fn desktop_after(u: UploaderView, ms: Seq<MessageView>) -> UploaderView
    decreases ms.len(),
{
    if ms.len() == 0 {
        u
    } else {
        after(desktop_after(u, ms.drop_last()), ms.last())
    }
}

/// A page after it has taken in what the desktop tells about messages, one after
/// the other, and made links to the files that it was told of.
pub open spec fn page_after(
    u: UploaderView,
    page: PageView,
    ms: Seq<MessageView>,
    make: spec_fn(Seq<Seq<char>>) -> LinksView,
) -> PageView
    decreases ms.len(),
{
    if ms.len() == 0 {
        page
    } else {
        let before = desktop_after(u, ms.drop_last());
        followed_all(page_after(u, page, ms.drop_last(), make), told(before, ms.last()), make)
    }
}

/// Messages after each of which the page stays in step.
pub open spec fn all_keep_step(u: UploaderView, ms: Seq<MessageView>) -> bool
    decreases ms.len(),
{
    ms.len() > 0 ==> {
        &&& all_keep_step(u, ms.drop_last())
        &&& keeps_step(desktop_after(u, ms.drop_last()), ms.last())
    }
}

/// A page that is in step with the desktop stays so through any number of such
/// messages.
pub proof fn stays_in_step(
    u: UploaderView,
    page: PageView,
    ms: Seq<MessageView>,
    make: spec_fn(Seq<Seq<char>>) -> LinksView,
)
    requires
        output_listed(u),
        in_step(u, page),
        all_keep_step(u, ms),
        makes_links(make),
    ensures
        in_step(desktop_after(u, ms), page_after(u, page, ms, make)),
        output_listed(desktop_after(u, ms)),
    decreases ms.len(),
{
    if ms.len() > 0 {
        stays_in_step(u, page, ms.drop_last(), make);
        told_keeps_in_step(
            desktop_after(u, ms.drop_last()),
            page_after(u, page, ms.drop_last(), make),
            ms.last(),
            make,
        );
    }
}

proof fn same_members(a: Seq<Seq<char>>, b: Seq<Seq<char>>, x: Seq<char>)
    requires
        a.to_multiset() == b.to_multiset(),
    ensures
        a.contains(x) == b.contains(x),
{
    a.to_multiset_ensures();
    b.to_multiset_ensures();
    assert(a.contains(x) <==> a.to_multiset().count(x) > 0);
    assert(b.contains(x) <==> b.to_multiset().count(x) > 0);
}

/// How many of the messages tell of a browser that has connected.
pub open spec fn connections(ms: Seq<MessageView>) -> nat
    decreases ms.len(),
{
    if ms.len() == 0 {
        0
    } else if ms.last() is WSConnection {
        connections(ms.drop_last()) + 1
    } else {
        connections(ms.drop_last())
    }
}

/// How many of the messages tell of a browser that has gone.
pub open spec fn departures(ms: Seq<MessageView>) -> nat
    decreases ms.len(),
{
    if ms.len() == 0 {
        0
    } else if ms.last() is WSClose {
        departures(ms.drop_last()) + 1
    } else {
        departures(ms.drop_last())
    }
}

/// Whatever messages come, the count of browsers grows by the connections and
/// shrinks by the departures.
pub proof fn clients_are_counted(u: UploaderView, ms: Seq<MessageView>)
    ensures
        desktop_after(u, ms).clients == u.clients + connections(ms) - departures(ms),
    decreases ms.len(),
{
    if ms.len() > 0 {
        clients_are_counted(u, ms.drop_last());
    }
}

/// From the start, the count of browsers is the connections less the departures.
pub proof fn clients_are_counted_from_the_start(
    entries: Seq<DirEntry>,
    ip: Option<Seq<char>>,
    ms: Seq<MessageView>,
)
    ensures
        desktop_after(initial(entries, ip), ms).clients == connections(ms) - departures(ms),
{
    clients_are_counted(initial(entries, ip), ms);
}

/// A browser that connects, and goes again after any messages but of others that
/// come and go, leaves the count of browsers as it was. Its departure changes
/// nothing else, and nobody is told of it.
pub proof fn connection_comes_and_goes(u: UploaderView, ms: Seq<MessageView>)
    requires
        connections(ms) == 0,
        departures(ms) == 0,
    ensures
        ({
            let before = desktop_after(after(u, MessageView::WSConnection), ms);
            let end = after(before, MessageView::WSClose);
            &&& end.clients == u.clients
            &&& end == (UploaderView { clients: u.clients, ..before })
            &&& told(before, MessageView::WSClose) == Seq::<MessageView>::empty()
        }),
{
    clients_are_counted(after(u, MessageView::WSConnection), ms);
}

/// A message adds a folder: its name was typed.
pub open spec fn adds_folder(u: UploaderView, m: MessageView) -> bool {
    m is AddPath && u.new_dir.len() > 0
}

/// No message changes how the desktop can be reached, and none but a connection
/// and a departure changes how many browsers are connected. The folders change
/// only when one is added; then there is one more, and none has gone. They stay
/// in order.
pub proof fn what_messages_leave(u: UploaderView, m: MessageView)
    ensures
        after(u, m).instructions == u.instructions,
        !(m is WSConnection) && !(m is WSClose) ==> after(u, m).clients == u.clients,
        !adds_folder(u, m) ==> after(u, m).folders == u.folders,
        adds_folder(u, m) ==> after(u, m).folders.len() == u.folders.len() + 1,
        adds_folder(u, m) ==> after(u, m).folders.to_multiset() == u.folders.to_multiset().insert(
            trimmed(u.new_dir),
        ),
        is_sorted(u.folders) ==> is_sorted(after(u, m).folders),
{
    if adds_folder(u, m) {
        in_order_sorts(u.folders.push(trimmed(u.new_dir)));
        u.folders.to_multiset_ensures();
    }
}

/// How many of the messages add a folder.
pub open spec fn additions(u: UploaderView, ms: Seq<MessageView>) -> nat
    decreases ms.len(),
{
    if ms.len() == 0 {
        0
    } else {
        let before = additions(u, ms.drop_last());
        if adds_folder(desktop_after(u, ms.drop_last()), ms.last()) {
            before + 1
        } else {
            before
        }
    }
}

/// From the start and through any messages, the folders are in order, there is
/// one more for each that was added, and none has gone.
pub proof fn folders_only_grow(
    entries: Seq<DirEntry>,
    ip: Option<Seq<char>>,
    ms: Seq<MessageView>,
)
    ensures
        ({
            let first = initial(entries, ip);
            let now = desktop_after(first, ms);
            &&& is_sorted(now.folders)
            &&& now.folders.len() == first.folders.len() + additions(first, ms)
            &&& first.folders.to_multiset().subset_of(now.folders.to_multiset())
        }),
    decreases ms.len(),
{
    let first = initial(entries, ip);
    if ms.len() == 0 {
        in_order_sorts(upload_folders(entries));
    } else {
        folders_only_grow(entries, ip, ms.drop_last());
        what_messages_leave(desktop_after(first, ms.drop_last()), ms.last());
    }
}

} // verus!
