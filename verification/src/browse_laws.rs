//! What holds of browsing as a whole.

use crate::browse::{
    first_named, loaded_frame, opened_at, quits, replaced, selection, ActionModel, BrowserModel,
    EventModel, FrameModel, Key,
};
use crate::entry::{ChildModel, EntryModel, LoadedModel};
use vstd::prelude::*;

verus! {

/// A key press as an event.
pub open spec fn press<T, C>(key: Key) -> EventModel<T, C> {
    EventModel::KeyPress(key)
}

/// No two children have the same name.
pub open spec fn distinct_names<T, C>(children: Seq<ChildModel<T, C>>) -> bool {
    forall|i: int, j: int|
        #![trigger children[i], children[j]]
        0 <= i < j < children.len() ==> children[i].segment != children[j].segment
}

/// The tree that is being browsed, with every open directory as it stands now:
/// each frame folded into the one below it.
pub open spec fn whole<T, C>(state: BrowserModel<T, C>) -> Option<EntryModel<T, C>>
    decreases state.frames.len(),
{
    if state.frames.len() == 0 {
        None
    } else if state.frames.len() == 1 {
        state.frames[0].entry()
    } else {
        whole(state.closed())
    }
}

/// The state after going left `n` times.
pub open spec fn backed_out<T, C>(state: BrowserModel<T, C>, n: nat) -> BrowserModel<T, C>
    decreases n,
{
    if n == 0 {
        state
    } else {
        backed_out(state.after(press(Key::Left)), (n - 1) as nat)
    }
}

/// Law: at most one tree is being opened, and it is the one on screen; every
/// frame below is a directory.
pub proof fn law_only_the_top_waits<T, C>(state: BrowserModel<T, C>)
    requires
        state.wf(),
    ensures
        forall|i: int|
            0 <= i < state.frames.len() - 1 ==> (#[trigger] state.frames[i]) is Directory,
{
    assert forall|i: int| 0 <= i < state.frames.len() - 1 implies (
    #[trigger] state.frames[i]) is Directory by {
        assert(opened_at(state.frames[i], state.segments[i]));
    }
}

/// Law: Escape and `c` end browsing in every state, and change nothing.
pub proof fn law_quitting_changes_nothing<T, C>(state: BrowserModel<T, C>, key: Key)
    requires
        quits(key),
    ensures
        state.after(press(key)) == state,
        state.action(press(key)) is Quit,
{
}

/// Law: while a tree is being opened, only going left from it and quitting do
/// anything; every other key is ignored.
pub proof fn law_keys_wait_for_loading<T, C>(state: BrowserModel<T, C>, key: Key)
    requires
        state.loading(),
        !quits(key),
        key != Key::Left || state.frames.len() == 1,
    ensures
        state.after(press(key)) == state,
        state.action(press(key)) is Continue,
{
    assert(state.after(press(key)) =~= state);
}

/// Law: only `w` asks for a tree to be written, only at the root and once the
/// root is open; what is written is then the whole tree as it stands.
pub proof fn law_only_the_whole_tree_is_saved<T, C>(
    state: BrowserModel<T, C>,
    event: EventModel<T, C>,
)
    ensures
        state.action(event) is Save <==> event == press::<T, C>(Key::Char('w'))
            && state.can_save(),
        state.action(event) is Save ==> whole(state) == Some(state.action(event)->Save_0),
{
}

/// Law: that a tree has arrived, and that one is being written, is never
/// forgotten; the one begins with an arrival alone, the other with a request to
/// write alone.
pub proof fn law_flags_only_rise<T, C>(state: BrowserModel<T, C>, event: EventModel<T, C>)
    ensures
        state.after(event).needs_close <==> state.needs_close || event is Chunks,
        state.after(event).saving <==> state.saving || state.action(event) is Save,
{
}

/// Law: an arrival starts browsing over: nothing of what was open is left.
pub proof fn law_arrival_starts_over<T, C>(state: BrowserModel<T, C>, other: BrowserModel<T, C>)
    requires
        state.saving == other.saving,
    ensures
        state.after(EventModel::Chunks) == other.after(EventModel::Chunks),
        state.after(EventModel::Chunks).loading(),
        state.action(EventModel::Chunks) is LoadReceived,
{
}

/// Law: what is not on screen does not change: an event that is no arrival
/// touches the top frame only, and going left also the frame below it.
pub proof fn law_lower_frames_stay<T, C>(state: BrowserModel<T, C>, event: EventModel<T, C>, i: int)
    requires
        !(event is Chunks),
        0 <= i < state.frames.len() - 1,
        event == press::<T, C>(Key::Left) ==> i < state.frames.len() - 2,
    ensures
        i < state.after(event).frames.len(),
        state.after(event).frames[i] == state.frames[i],
{
}

/// Law: going down and up again comes back to the same line.
pub proof fn law_down_then_up<T, C>(state: BrowserModel<T, C>)
    requires
        state.frames.len() > 0,
        state.frames.last() is Directory,
        selection(state.frames.last()->Directory_selected) < usize::MAX,
    ensures
        state.after(press(Key::Down)).after(press(Key::Up)) == state.focused(),
{
    assert(state.after(press(Key::Down)).after(press(Key::Up)) =~= state.focused());
}

/// Law: Delete takes the selected child out of the listing on screen, keeps the
/// order of the others, and does nothing where nothing is selected.
pub proof fn law_delete_removes_one<T, C>(state: BrowserModel<T, C>, i: int)
    requires
        state.frames.len() > 0,
        state.frames.last() is Directory,
        0 <= i < state.frames.last()->Directory_children.len(),
    ensures
        ({
            let children = state.frames.last()->Directory_children;
            let at = selection(state.frames.last()->Directory_selected);
            let left = state.after(press(Key::Delete)).frames.last()->Directory_children;
            &&& at < children.len() ==> left.len() == children.len() - 1
            &&& at >= children.len() ==> left == children
            &&& i < at ==> left[i] == children[i]
            &&& at < i ==> left[i - 1] == children[i]
        }),
{
}

/// The first child of a name is the one found first.
proof fn lemma_first_named_unique<T, C>(
    children: Seq<ChildModel<T, C>>,
    segment: Seq<char>,
    a: int,
    b: int,
)
    requires
        first_named(children, segment, a),
        first_named(children, segment, b),
    ensures
        a == b,
{
    if a < b {
        assert(children[a].segment == segment);
    } else if b < a {
        assert(children[b].segment == segment);
    }
}

/// Law: going back keeps the names in the listing and their order.
pub proof fn law_replacing_keeps_names<T, C>(
    children: Seq<ChildModel<T, C>>,
    segment: Seq<char>,
    entry: EntryModel<T, C>,
)
    ensures
        replaced(children, segment, entry).len() == children.len(),
        forall|i: int|
            0 <= i < children.len() ==> (#[trigger] replaced(
                children,
                segment,
                entry,
            )[i]).segment == children[i].segment,
{
    if exists|at: int| first_named(children, segment, at) {
        let at = choose|at: int| first_named(children, segment, at);
        assert(first_named(children, segment, at));
    }
}

/// Among distinct names, what is replaced is the child of that name.
proof fn lemma_replaced_at<T, C>(
    children: Seq<ChildModel<T, C>>,
    at: int,
    entry: EntryModel<T, C>,
)
    requires
        0 <= at < children.len(),
        distinct_names(children),
    ensures
        replaced(children, children[at].segment, entry) == children.update(
            at,
            ChildModel { segment: children[at].segment, entry },
        ),
{
    let segment = children[at].segment;
    assert forall|i: int| 0 <= i < at implies (#[trigger] children[i]).segment != segment by {
        assert(children[i].segment != children[at].segment);
    }
    assert(first_named(children, segment, at));
    let found = choose|k: int| first_named(children, segment, k);
    lemma_first_named_unique(children, segment, at, found);
}

/// Law: going left from a child that is not open yet leaves everything as it was
/// before it was selected for opening.
pub proof fn law_back_before_loading<T, C>(state: BrowserModel<T, C>)
    requires
        state.can_open(),
    ensures
        state.after(press(Key::Right)).after(press(Key::Left)) == state.focused(),
{
    let there = state.after(press(Key::Right));
    assert(there.frames.drop_last() =~= state.focused().frames);
    assert(there.segments.drop_last() =~= state.segments);
    assert(there.after(press(Key::Left)) =~= state.focused());
}

/// Law: opening a child and going left again changes that child alone, from what
/// it was to what opening it brought; the selection stays on it.
pub proof fn law_back_after_loading<T, C>(state: BrowserModel<T, C>, loaded: LoadedModel<T, C>)
    requires
        state.can_open(),
        distinct_names(state.frames.last()->Directory_children),
    ensures
        ({
            let children = state.frames.last()->Directory_children;
            let at = selection(state.frames.last()->Directory_selected);
            let offset = state.frames.last()->Directory_offset;
            let child = ChildModel {
                segment: children[at as int].segment,
                entry: loaded_frame(loaded).entry()->Some_0,
            };
            state.after(press(Key::Right)).after(EventModel::Loaded(loaded)).after(press(Key::Left))
                == state.with_top(
                FrameModel::Directory {
                    children: children.update(at as int, child),
                    selected: Some(at),
                    offset,
                },
            )
        }),
{
    let children = state.frames.last()->Directory_children;
    let at = selection(state.frames.last()->Directory_selected);
    let offset = state.frames.last()->Directory_offset;
    let entry = loaded_frame(loaded).entry()->Some_0;
    lemma_replaced_at(children, at as int, entry);
    let there = state.after(press(Key::Right)).after(EventModel::Loaded(loaded));
    assert(there.frames.drop_last() =~= state.focused().frames);
    assert(there.segments.drop_last() =~= state.segments);
    assert(there.after(press(Key::Left)) =~= state.with_top(
        FrameModel::Directory {
            children: children.update(
                at as int,
                ChildModel { segment: children[at as int].segment, entry },
            ),
            selected: Some(at),
            offset,
        },
    ));
}

/// Law: what is deleted in a directory is missing from it after going left.
pub proof fn law_deletion_reaches_the_parent<T, C>(state: BrowserModel<T, C>)
    requires
        state.wf(),
        state.frames.len() > 1,
        state.can_open(),
        distinct_names(state.frames[state.frames.len() - 2]->Directory_children),
    ensures
        ({
            let children = state.frames.last()->Directory_children;
            let at = selection(state.frames.last()->Directory_selected);
            let parent = state.frames[state.frames.len() - 2];
            let back = state.after(press(Key::Delete)).after(press(Key::Left));
            &&& back.frames.len() == state.frames.len() - 1
            &&& back.frames.last()->Directory_children == parent->Directory_children.update(
                parent->Directory_selected->Some_0 as int,
                ChildModel {
                    segment: state.segments.last(),
                    entry: EntryModel::Directory { children: children.remove(at as int) },
                },
            )
        }),
{
    let below = state.frames.len() - 2;
    assert(opened_at(state.frames[below], state.segments[below]));
    let parent = state.frames[below];
    let children = state.frames.last()->Directory_children;
    let at = selection(state.frames.last()->Directory_selected);
    let there = state.after(press(Key::Delete));
    assert(there.frames.drop_last().last() == parent);
    lemma_replaced_at(
        parent->Directory_children,
        parent->Directory_selected->Some_0 as int,
        EntryModel::Directory { children: children.remove(at as int) },
    );
}

/// Where the selection is has no part in what the tree is.
proof fn lemma_whole_ignores_focus<T, C>(state: BrowserModel<T, C>)
    ensures
        whole(state.focused()) == whole(state),
{
    if state.frames.len() > 0 {
        let focused = state.focused();
        assert(focused.frames.last().entry() == state.frames.last().entry());
        if state.frames.len() > 1 {
            assert(focused.frames.drop_last() =~= state.frames.drop_last());
            assert(focused.closed() =~= state.closed());
        }
    }
}

/// Law: going left loses nothing: the whole tree stays as it is.
pub proof fn law_going_back_keeps_the_tree<T, C>(state: BrowserModel<T, C>)
    requires
        state.frames.len() > 1,
    ensures
        whole(state.after(press(Key::Left))) == whole(state),
{
    lemma_whole_ignores_focus(state.closed());
}

/// Law: going left to the root and writing writes the whole tree, with all that
/// was changed in the directories on the way.
pub proof fn law_backing_out_saves_everything<T, C>(state: BrowserModel<T, C>)
    requires
        state.wf(),
        state.frames.len() > 0,
        !state.loading(),
    ensures
        ({
            let root = backed_out(state, (state.frames.len() - 1) as nat);
            &&& root.frames.len() == 1
            &&& whole(state) is Some
            &&& root.action(press(Key::Char('w'))) == ActionModel::Save(whole(state)->Some_0)
        }),
    decreases state.frames.len(),
{
    if state.frames.len() > 1 {
        let below = state.frames.len() - 2;
        assert(opened_at(state.frames[below], state.segments[below]));
        let back = state.after(press(Key::Left));
        crate::browse::law_shape_is_kept(state, press(Key::Left));
        law_going_back_keeps_the_tree(state);
        assert(back.frames.len() == state.frames.len() - 1);
        assert(back.frames.last() is Directory);
        law_backing_out_saves_everything(back);
    }
}

} // verus!
