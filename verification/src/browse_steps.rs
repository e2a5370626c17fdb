//! What each event does, in full: which frames and names there are after it, and
//! what it asks for.
//!
//! In these laws `at` is the selected line of a listing: the first one where
//! nothing is selected.

use crate::browse::{
    first_named, Action, ActionModel, BrowseEvent, BrowseFrame, BrowserModel, EventModel,
    FrameModel, Key,
};
use crate::entry::{
    law_listing_is_directories_then_files, law_listing_keeps_children, listing_order, ChildModel,
    EntryModel, LoadedModel,
};
use vstd::prelude::*;

verus! {

/// Law: at first there is nothing: no frame, no name, no arrival, nothing written.
pub proof fn law_start_is_empty<T, C>()
    ensures
        BrowserModel::<T, C>::start() == (BrowserModel::<T, C> {
            frames: Seq::empty(),
            segments: Seq::empty(),
            needs_close: false,
            saving: false,
        }),
{
}

/// Law: exactly these ask for something: an arrival for the tree to be opened; Right
/// on a selected child for that child to be opened, whatever the child is; `w` on an
/// open root for the root to be written, a file as its chunks and a directory with
/// all its children; and Escape, `c`, the end of writing and the end of events for
/// browsing to stop.
pub proof fn law_what_is_asked_for<T, C>(state: BrowserModel<T, C>, event: EventModel<T, C>)
    ensures
        state.action(event) is Quit <==> {
            ||| event is Saved
            ||| event is End
            ||| event == EventModel::<T, C>::KeyPress(Key::Esc)
            ||| event == EventModel::<T, C>::KeyPress(Key::Char('c'))
        },
        state.action(event) is LoadReceived <==> event is Chunks,
        state.action(event) is LoadChild <==> {
            &&& event == EventModel::<T, C>::KeyPress(Key::Right)
            &&& state.frames.len() > 0
            &&& state.frames.last() matches FrameModel::Directory { children, selected, .. }
            &&& (match selected {
                Some(at) => at < children.len(),
                None => 0 < children.len(),
            })
        },
        state.action(event) is Save <==> {
            &&& event == EventModel::<T, C>::KeyPress(Key::Char('w'))
            &&& state.frames.len() == 1
            &&& state.frames[0] is File || state.frames[0] is Directory
        },
        state.action(event) is Save ==> match state.frames[0] {
            FrameModel::File { chunks, .. } => state.action(event) == ActionModel::Save(
                EntryModel::<T, C>::File { chunks },
            ),
            FrameModel::Directory { children, .. } => state.action(event) == ActionModel::Save(
                EntryModel::<T, C>::Directory { children },
            ),
            FrameModel::Pending => false,
        },
{
}

/// Law: an arrival leaves one frame, which waits for the tree, and no name.
pub proof fn law_arrival<T, C>(state: BrowserModel<T, C>)
    ensures
        state.after(EventModel::Chunks) == (BrowserModel {
            frames: seq![FrameModel::<T, C>::Pending],
            segments: Seq::empty(),
            needs_close: true,
            saving: state.saving,
        }),
{
}

/// Law: a file that was opened takes the place of the frame that waited for it.
pub proof fn law_file_opened<T, C>(state: BrowserModel<T, C>, chunks: C, len: usize)
    requires
        state.frames.len() > 0,
        state.frames.last() is Pending,
    ensures
        state.after(EventModel::Loaded(LoadedModel::File { chunks, len })) == (BrowserModel {
            frames: state.frames.update(
                state.frames.len() - 1,
                FrameModel::File { chunks, len },
            ),
            ..state
        }),
{
    assert(state.after(EventModel::Loaded(LoadedModel::File { chunks, len })) =~= (BrowserModel {
        frames: state.frames.update(state.frames.len() - 1, FrameModel::File { chunks, len }),
        ..state
    }));
}

/// An opened directory is on top, with its children in the order of a listing.
proof fn lemma_opened_directory<T, C>(state: BrowserModel<T, C>, children: Seq<ChildModel<T, C>>)
    requires
        state.frames.len() > 0,
        state.frames.last() is Pending,
    ensures
        state.after(EventModel::Loaded(LoadedModel::Directory { children })).frames.last() == (
        FrameModel::Directory {
            children: listing_order(children),
            selected: Some(0usize),
            offset: 0usize,
        }),
{
}

/// Law: a directory that was opened takes the place of the frame that waited for it,
/// with the first line selected. Nothing else changes.
pub proof fn law_directory_opened<T, C>(state: BrowserModel<T, C>, children: Seq<ChildModel<T, C>>)
    requires
        state.frames.len() > 0,
        state.frames.last() is Pending,
    ensures
        ({
            let next = state.after(EventModel::Loaded(LoadedModel::Directory { children }));
            let top = next.frames.last();
            &&& next == (BrowserModel {
                frames: state.frames.update(state.frames.len() - 1, top),
                ..state
            })
            &&& top is Directory
            &&& top->Directory_selected == Some(0usize)
            &&& top->Directory_offset == 0
        }),
{
    let next = state.after(EventModel::Loaded(LoadedModel::Directory { children }));
    lemma_opened_directory(state, children);
    assert(next.frames =~= state.frames.update(state.frames.len() - 1, next.frames.last()));
}

/// Law: a directory that was opened is on top with all its children, none lost and
/// none added.
pub proof fn law_opening_loses_no_child<T, C>(
    state: BrowserModel<T, C>,
    children: Seq<ChildModel<T, C>>,
)
    requires
        state.frames.len() > 0,
        state.frames.last() is Pending,
    ensures
        ({
            let next = state.after(EventModel::Loaded(LoadedModel::Directory { children }));
            let listed = next.frames.last()->Directory_children;
            &&& listed.len() == children.len()
            &&& listed.to_multiset() == children.to_multiset()
        }),
{
    lemma_opened_directory(state, children);
    law_listing_keeps_children(children);
}

/// Law: a directory that was opened is on top with its directories in the order in
/// which they came, and then its files in the order in which they came.
pub proof fn law_opening_lists_directories_first<T, C>(
    state: BrowserModel<T, C>,
    children: Seq<ChildModel<T, C>>,
)
    requires
        state.frames.len() > 0,
        state.frames.last() is Pending,
    ensures
        ({
            let next = state.after(EventModel::Loaded(LoadedModel::Directory { children }));
            next.frames.last()->Directory_children == children.filter(
                |child: ChildModel<T, C>| !child.entry.is_file(),
            ) + children.filter(|child: ChildModel<T, C>| child.entry.is_file())
        }),
{
    lemma_opened_directory(state, children);
    law_listing_is_directories_then_files(children);
}

/// Law: drawing a listing changes its selection and its scroll offset to those
/// drawn, and nothing else.
pub proof fn law_drawing<T, C>(
    state: BrowserModel<T, C>,
    children: Seq<ChildModel<T, C>>,
    before: (Option<usize>, usize),
    selected: Option<usize>,
    offset: usize,
)
    requires
        state.frames.len() > 0,
        state.frames.last() == (FrameModel::Directory {
            children,
            selected: before.0,
            offset: before.1,
        }),
    ensures
        state.after(EventModel::Drawn { selected, offset }) == (BrowserModel {
            frames: state.frames.update(
                state.frames.len() - 1,
                FrameModel::Directory { children, selected, offset },
            ),
            ..state
        }),
{
    assert(state.after(EventModel::Drawn { selected, offset }) =~= (BrowserModel {
        frames: state.frames.update(
            state.frames.len() - 1,
            FrameModel::Directory { children, selected, offset },
        ),
        ..state
    }));
}

/// Law: these change nothing: a tree that nothing waits for, drawing what is no
/// listing, waking up, other events of the terminal, the end of writing, the end of
/// events, and the keys that quit.
pub proof fn law_what_changes_nothing<T, C>(state: BrowserModel<T, C>, event: EventModel<T, C>)
    requires
        match event {
            EventModel::Loaded(_) => state.frames.len() == 0 || !(state.frames.last() is Pending),
            EventModel::Drawn { .. } => state.frames.len() == 0 || !(
            state.frames.last() is Directory),
            EventModel::Notify | EventModel::Terminal | EventModel::Saved | EventModel::End => true,
            EventModel::KeyPress(key) => key == Key::Esc || key == Key::Char('c'),
            EventModel::Chunks => false,
        },
    ensures
        state.after(event) == state,
{
}

/// Law: where no listing is on screen a key changes nothing, unless it is Left with
/// a frame to go back to, or `w` on a root that is a file.
pub proof fn law_keys_without_a_listing<T, C>(state: BrowserModel<T, C>, key: Key)
    requires
        state.frames.len() == 0 || state.frames.last() is Pending || state.frames.last() is File,
        key == Key::Left ==> state.frames.len() <= 1,
        key == Key::Char('w') ==> state.frames.len() != 1 || state.frames[0] is Pending,
    ensures
        state.after(EventModel::KeyPress(key)) == state,
{
    assert(state.after(EventModel::KeyPress(key)) =~= state);
}

/// Law: Up selects the line above and stays on the first one; Down selects the line
/// below and stays on the last one that can be counted; Delete takes the selected
/// child out, and no other, and the same line stays selected. Nothing else changes.
pub proof fn law_keys_on_a_listing<T, C>(
    state: BrowserModel<T, C>,
    children: Seq<ChildModel<T, C>>,
    selected: Option<usize>,
    offset: usize,
    at: usize,
)
    requires
        state.frames.len() > 0,
        state.frames.last() == (FrameModel::Directory { children, selected, offset }),
        selected == Some(at) || selected is None && at == 0,
    ensures
        state.after(EventModel::KeyPress(Key::Up)) == (BrowserModel {
            frames: state.frames.update(
                state.frames.len() - 1,
                FrameModel::Directory {
                    children,
                    selected: Some(if at > 0 { (at - 1) as usize } else { 0 }),
                    offset,
                },
            ),
            ..state
        }),
        state.after(EventModel::KeyPress(Key::Down)) == (BrowserModel {
            frames: state.frames.update(
                state.frames.len() - 1,
                FrameModel::Directory {
                    children,
                    selected: Some(if at < usize::MAX { (at + 1) as usize } else { usize::MAX }),
                    offset,
                },
            ),
            ..state
        }),
        state.after(EventModel::KeyPress(Key::Delete)) == (BrowserModel {
            frames: state.frames.update(
                state.frames.len() - 1,
                FrameModel::Directory {
                    children: if at < children.len() {
                        children.take(at as int) + children.skip(at + 1)
                    } else {
                        children
                    },
                    selected: Some(at),
                    offset,
                },
            ),
            ..state
        }),
{
    let last = state.frames.len() - 1;
    if at < children.len() {
        assert(children.remove(at as int) =~= children.take(at as int) + children.skip(at + 1));
    }
    let up = state.after(EventModel::KeyPress(Key::Up));
    assert(up.frames =~= state.frames.update(last, up.frames.last()));
    let down = state.after(EventModel::KeyPress(Key::Down));
    assert(down.frames =~= state.frames.update(last, down.frames.last()));
    let delete = state.after(EventModel::KeyPress(Key::Delete));
    assert(delete.frames =~= state.frames.update(last, delete.frames.last()));
}

/// Law: a key with nothing to do leaves a listing as it is, with its line selected:
/// Left on the root, Right with no child selected, `w` below the root, and every key
/// that has no meaning.
pub proof fn law_idle_keys_on_a_listing<T, C>(
    state: BrowserModel<T, C>,
    children: Seq<ChildModel<T, C>>,
    selected: Option<usize>,
    offset: usize,
    at: usize,
    key: Key,
)
    requires
        state.frames.len() > 0,
        state.frames.last() == (FrameModel::Directory { children, selected, offset }),
        selected == Some(at) || selected is None && at == 0,
        match key {
            Key::Left => state.frames.len() == 1,
            Key::Right => at >= children.len(),
            Key::Char(c) => c != 'c' && (c == 'w' ==> state.frames.len() > 1),
            Key::Other => true,
            _ => false,
        },
    ensures
        state.after(EventModel::KeyPress(key)) == (BrowserModel {
            frames: state.frames.update(
                state.frames.len() - 1,
                FrameModel::Directory { children, selected: Some(at), offset },
            ),
            ..state
        }),
{
    let next = state.after(EventModel::KeyPress(key));
    assert(next.frames =~= state.frames.update(state.frames.len() - 1, next.frames.last()));
}

/// Law: Right on a selected child puts a frame that waits for it on top and its name
/// behind the names, whatever the child is; the listing below stays, with that child
/// selected.
pub proof fn law_right_enters_any_child<T, C>(
    state: BrowserModel<T, C>,
    children: Seq<ChildModel<T, C>>,
    selected: Option<usize>,
    offset: usize,
    at: usize,
)
    requires
        state.frames.len() > 0,
        state.frames.last() == (FrameModel::Directory { children, selected, offset }),
        selected == Some(at) || selected is None && at == 0,
        at < children.len(),
    ensures
        state.after(EventModel::KeyPress(Key::Right)) == (BrowserModel {
            frames: state.frames.update(
                state.frames.len() - 1,
                FrameModel::Directory { children, selected: Some(at), offset },
            ).push(FrameModel::Pending),
            segments: state.segments.push(children[at as int].segment),
            ..state
        }),
        state.action(EventModel::KeyPress(Key::Right)) is LoadChild,
{
    let next = state.after(EventModel::KeyPress(Key::Right));
    assert(next.frames =~= state.frames.update(
        state.frames.len() - 1,
        FrameModel::Directory { children, selected: Some(at), offset },
    ).push(FrameModel::Pending));
}

/// Law: `w` on an open root takes it off the screen and begins writing.
pub proof fn law_writing_begins<T, C>(state: BrowserModel<T, C>)
    requires
        state.frames.len() == 1,
        state.frames[0] is File || state.frames[0] is Directory,
    ensures
        state.after(EventModel::KeyPress(Key::Char('w'))) == (BrowserModel {
            frames: Seq::empty(),
            saving: true,
            ..state
        }),
{
}

/// Law: Left from a frame that still waits drops it and its name; the listing below
/// comes back as it was, with its line selected.
pub proof fn law_left_from_a_waiting_frame<T, C>(
    state: BrowserModel<T, C>,
    children: Seq<ChildModel<T, C>>,
    selected: Option<usize>,
    offset: usize,
    at: usize,
)
    requires
        state.frames.len() > 1,
        state.frames.last() is Pending,
        state.frames[state.frames.len() - 2] == (FrameModel::Directory {
            children,
            selected,
            offset,
        }),
        selected == Some(at) || selected is None && at == 0,
    ensures
        state.after(EventModel::KeyPress(Key::Left)) == (BrowserModel {
            frames: state.frames.take(state.frames.len() - 2).push(
                FrameModel::Directory { children, selected: Some(at), offset },
            ),
            segments: state.segments.drop_last(),
            ..state
        }),
{
    let next = state.after(EventModel::KeyPress(Key::Left));
    assert(next.frames =~= state.frames.take(state.frames.len() - 2).push(
        FrameModel::Directory { children, selected: Some(at), offset },
    ));
}

/// Law: Left from an open frame drops it and its name, and leaves what it shows, a
/// file as its chunks and a directory with all its children, with the first child of
/// that name in the listing below; every other child stays as it is and in its
/// place, and so does the line that is selected.
pub proof fn law_left_puts_back_what_is_shown<T, C>(
    state: BrowserModel<T, C>,
    children: Seq<ChildModel<T, C>>,
    selected: Option<usize>,
    offset: usize,
    at: usize,
    place: int,
    entry: EntryModel<T, C>,
)
    requires
        state.frames.len() > 1,
        match state.frames.last() {
            FrameModel::File { chunks, .. } => entry == (EntryModel::<T, C>::File { chunks }),
            FrameModel::Directory { children: shown, .. } => entry == (
            EntryModel::<T, C>::Directory { children: shown }),
            FrameModel::Pending => false,
        },
        state.frames[state.frames.len() - 2] == (FrameModel::Directory {
            children,
            selected,
            offset,
        }),
        selected == Some(at) || selected is None && at == 0,
        0 <= place < children.len(),
        children[place].segment == state.segments.last(),
        forall|i: int|
            0 <= i < place ==> (#[trigger] children[i]).segment != state.segments.last(),
    ensures
        state.after(EventModel::KeyPress(Key::Left)) == (BrowserModel {
            frames: state.frames.take(state.frames.len() - 2).push(
                FrameModel::Directory {
                    children: children.update(
                        place,
                        ChildModel { segment: children[place].segment, entry },
                    ),
                    selected: Some(at),
                    offset,
                },
            ),
            segments: state.segments.drop_last(),
            ..state
        }),
{
    let name = state.segments.last();
    assert(first_named(children, name, place));
    let found = choose|k: int| first_named(children, name, k);
    assert(found == place) by {
        assert(first_named(children, name, found));
        if found < place {
            assert(children[found].segment == name);
        } else if place < found {
            assert(children[place].segment == name);
        }
    }
    assert(state.frames.drop_last().last() == state.frames[state.frames.len() - 2]);
    let next = state.after(EventModel::KeyPress(Key::Left));
    assert(next.frames =~= state.frames.take(state.frames.len() - 2).push(
        FrameModel::Directory {
            children: children.update(
                place,
                ChildModel { segment: children[place].segment, entry },
            ),
            selected: Some(at),
            offset,
        },
    ));
}

/// Law: where no child has the name, the listing below comes back as it was, with its
/// line selected.
pub proof fn law_left_with_no_child_of_that_name<T, C>(
    state: BrowserModel<T, C>,
    children: Seq<ChildModel<T, C>>,
    selected: Option<usize>,
    offset: usize,
    at: usize,
)
    requires
        state.frames.len() > 1,
        state.frames[state.frames.len() - 2] == (FrameModel::Directory {
            children,
            selected,
            offset,
        }),
        selected == Some(at) || selected is None && at == 0,
        forall|i: int|
            0 <= i < children.len() ==> (#[trigger] children[i]).segment != state.segments.last(),
    ensures
        state.after(EventModel::KeyPress(Key::Left)) == (BrowserModel {
            frames: state.frames.take(state.frames.len() - 2).push(
                FrameModel::Directory { children, selected: Some(at), offset },
            ),
            segments: state.segments.drop_last(),
            ..state
        }),
{
    assert forall|k: int| !first_named(children, state.segments.last(), k) by {
        if first_named(children, state.segments.last(), k) {
            assert(children[k].segment == state.segments.last());
        }
    }
    assert(state.frames.drop_last().last() == state.frames[state.frames.len() - 2]);
    let next = state.after(EventModel::KeyPress(Key::Left));
    assert(next.frames =~= state.frames.take(state.frames.len() - 2).push(
        FrameModel::Directory { children, selected: Some(at), offset },
    ));
}

/// Law: a frame, an event and an action are modelled with all that they hold.
pub proof fn law_browsing_models_are_faithful<T, C>(
    frame: BrowseFrame<T, C>,
    event: BrowseEvent<T, C>,
    action: Action<T, C>,
    i: int,
)
    ensures
        frame is Pending ==> frame.model() is Pending,
        frame matches BrowseFrame::File { chunks, len } ==> frame.model() == (
        FrameModel::<T, C>::File { chunks, len }),
        frame matches BrowseFrame::Directory { children, selected, offset } ==> {
            &&& frame.model() is Directory
            &&& frame.model()->Directory_selected == selected
            &&& frame.model()->Directory_offset == offset
            &&& frame.model()->Directory_children.len() == children@.len()
            &&& 0 <= i < children@.len() ==> {
                &&& frame.model()->Directory_children[i].segment == children@[i].segment@
                &&& frame.model()->Directory_children[i].entry == children@[i].entry.model()
            }
        },
        event is Chunks ==> event.model() is Chunks,
        event is Notify ==> event.model() is Notify,
        event is Terminal ==> event.model() is Terminal,
        event is Saved ==> event.model() is Saved,
        event is End ==> event.model() is End,
        event matches BrowseEvent::KeyPress(key) ==> event.model() == EventModel::<
            T,
            C,
        >::KeyPress(key),
        event matches BrowseEvent::Loaded(loaded) ==> event.model() == EventModel::Loaded(
            loaded.model(),
        ),
        event matches BrowseEvent::Drawn { selected, offset } ==> event.model() == (
        EventModel::<T, C>::Drawn { selected, offset }),
        action is Continue <==> action.model() is Continue,
        action is LoadReceived <==> action.model() is LoadReceived,
        action is LoadChild <==> action.model() is LoadChild,
        action is Quit <==> action.model() is Quit,
        action matches Action::Save(entry) ==> action.model() == ActionModel::Save(entry.model()),
{
}

} // verus!
