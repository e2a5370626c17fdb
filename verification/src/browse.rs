//! Browsing a received tree: what each event changes, and what it asks for.
//!
//! The browser is a stack of frames. The top one is on screen; the ones below are
//! the directories that were opened on the way to it. Trees are opened and
//! written outside: [`Browser::handle`] says when, and takes the outcome as
//! another event.

use crate::entry::{
    children_model, lemma_directory_model, sort_children, Child, ChildModel, Entry, EntryModel,
    Loaded, LoadedModel,
};
use vstd::prelude::*;

verus! {

/// A key, as far as the browser tells keys apart.
#[derive(Debug, Clone, Copy, PartialEq, Eq, Structural)]
pub enum Key {
    Esc,
    Left,
    Right,
    Up,
    Down,
    Delete,
    Char(char),
    Other,
}

/// What can happen to the browser.
#[derive(Debug, PartialEq, Eq)]
pub enum BrowseEvent<T, C> {
    /// A tree has arrived.
    Chunks,
    /// Something outside has changed; another event says what.
    Notify,
    /// A key was pressed.
    KeyPress(Key),
    /// Any other event of the terminal.
    Terminal,
    /// The tree that the top frame waits for is open.
    Loaded(Loaded<T, C>),
    /// Drawing the listing has settled its selection and its scroll offset.
    Drawn { selected: Option<usize>, offset: usize },
    /// The tree is written.
    Saved,
    /// There will be no more events.
    End,
}

/// What the browser asks for.
#[derive(Debug, PartialEq, Eq)]
pub enum Action<T, C> {
    /// Nothing: draw, and wait for the next event.
    Continue,
    /// Open the tree that has just arrived.
    LoadReceived,
    /// Open the child that [`Browser::loading_child`] gives.
    LoadChild,
    /// Write this entry out.
    Save(Entry<T, C>),
    /// Stop.
    Quit,
}

/// One level of browsing.
#[derive(Debug, PartialEq, Eq)]
pub enum BrowseFrame<T, C> {
    /// Waiting for a tree to be opened.
    Pending,
    /// A file.
    File { chunks: C, len: usize },
    /// A directory, with the state of its listing.
    Directory { children: Vec<Child<T, C>>, selected: Option<usize>, offset: usize },
}

/// A frame as a mathematical value.
pub enum FrameModel<T, C> {
    Pending,
    File { chunks: C, len: usize },
    Directory { children: Seq<ChildModel<T, C>>, selected: Option<usize>, offset: usize },
}

/// An event as a mathematical value.
pub enum EventModel<T, C> {
    Chunks,
    Notify,
    KeyPress(Key),
    Terminal,
    Loaded(LoadedModel<T, C>),
    Drawn { selected: Option<usize>, offset: usize },
    Saved,
    End,
}

/// An action as a mathematical value.
pub enum ActionModel<T, C> {
    Continue,
    LoadReceived,
    LoadChild,
    Save(EntryModel<T, C>),
    Quit,
}

/// A browser as a mathematical value.
#[verifier::ext_equal]
pub struct BrowserModel<T, C> {
    /// The frames, the top one last.
    pub frames: Seq<FrameModel<T, C>>,
    /// The names that lead from the bottom frame to the top one.
    pub segments: Seq<Seq<char>>,
    /// Whether a tree has arrived.
    pub needs_close: bool,
    /// Whether a tree is being written.
    pub saving: bool,
}

impl<T, C> BrowseFrame<T, C> {
    /// The frame as a mathematical value.
    pub open spec fn model(self) -> FrameModel<T, C> {
        match self {
            BrowseFrame::Pending => FrameModel::Pending,
            BrowseFrame::File { chunks, len } => FrameModel::File { chunks, len },
            BrowseFrame::Directory { children, selected, offset } => FrameModel::Directory {
                children: children_model(children@),
                selected,
                offset,
            },
        }
    }

    /// The entry that the frame shows; none while it is being opened.
    pub fn into_entry(self) -> (entry: Option<Entry<T, C>>)
        ensures
            entry is Some <==> self.model().entry() is Some,
            entry is Some ==> Some(entry->Some_0.model()) == self.model().entry(),
            self is Pending ==> entry is None,
            self matches BrowseFrame::File { chunks, .. } ==> entry == Some(
                (Entry::<T, C>::File { chunks }),
            ),
            self matches BrowseFrame::Directory { children, .. } ==> entry == Some(
                (Entry::<T, C>::Directory { children }),
            ),
    {
        match self {
            BrowseFrame::Pending => None,
            BrowseFrame::File { chunks, .. } => Some(Entry::File { chunks }),
            BrowseFrame::Directory { children, .. } => {
                proof {
                    lemma_directory_model(children);
                }
                Some(Entry::Directory { children })
            },
        }
    }
}

impl<T, C> FrameModel<T, C> {
    /// The entry that the frame shows; none while it is being opened.
    pub open spec fn entry(self) -> Option<EntryModel<T, C>> {
        match self {
            FrameModel::Pending => None,
            FrameModel::File { chunks, .. } => Some(EntryModel::File { chunks }),
            FrameModel::Directory { children, .. } => Some(EntryModel::Directory { children }),
        }
    }

    /// The frame with its selection settled: a listing with nothing selected has
    /// its first line selected.
    pub open spec fn focused(self) -> Self {
        match self {
            FrameModel::Directory { children, selected, offset } => FrameModel::Directory {
                children,
                selected: Some(selection(selected)),
                offset,
            },
            other => other,
        }
    }

    /// The frame after one of the keys that act on a listing.
    pub open spec fn acted(self, key: Key) -> Self {
        match self {
            FrameModel::Directory { children, selected, offset } => {
                let at = selection(selected);
                match key {
                    Key::Up => FrameModel::Directory {
                        children,
                        selected: Some(if at == 0 { 0 } else { (at - 1) as usize }),
                        offset,
                    },
                    Key::Down => FrameModel::Directory {
                        children,
                        selected: Some(if at == usize::MAX { at } else { (at + 1) as usize }),
                        offset,
                    },
                    Key::Delete => FrameModel::Directory {
                        children: if at < children.len() {
                            children.remove(at as int)
                        } else {
                            children
                        },
                        selected: Some(at),
                        offset,
                    },
                    _ => self.focused(),
                }
            },
            other => other,
        }
    }
}

/// The line that counts as selected.
pub open spec fn selection(selected: Option<usize>) -> usize {
    match selected {
        Some(at) => at,
        None => 0,
    }
}

/// The frame of a tree that was opened: the length of a file; the listing of a
/// directory in order, its first line selected.
pub open spec fn loaded_frame<T, C>(loaded: LoadedModel<T, C>) -> FrameModel<T, C> {
    match loaded {
        LoadedModel::File { chunks, len } => FrameModel::File { chunks, len },
        LoadedModel::Directory { children } => FrameModel::Directory {
            children: crate::entry::listing_order(children),
            selected: Some(0),
            offset: 0,
        },
    }
}

/// Makes the frame of a tree that was opened.
pub fn tree_to_frame<T, C>(loaded: Loaded<T, C>) -> (frame: BrowseFrame<T, C>)
    ensures
        frame.model() == loaded_frame(loaded.model()),
        loaded matches Loaded::File { chunks, len } ==> frame == (BrowseFrame::<T, C>::File {
            chunks,
            len,
        }),
        loaded matches Loaded::Directory { children } ==> {
            &&& frame is Directory
            &&& frame->selected == Some(0usize)
            &&& frame->offset == 0
            &&& children_model(frame->children@) == crate::entry::listing_order(
                children_model(children@),
            )
        },
{
    match loaded {
        Loaded::File { chunks, len } => BrowseFrame::File { chunks, len },
        Loaded::Directory { children } => BrowseFrame::Directory {
            children: sort_children(children),
            selected: Some(0),
            offset: 0,
        },
    }
}

/// Whether `at` is the first child that has this name.
pub open spec fn first_named<T, C>(
    children: Seq<ChildModel<T, C>>,
    segment: Seq<char>,
    at: int,
) -> bool {
    &&& 0 <= at < children.len()
    &&& children[at].segment == segment
    &&& forall|i: int| 0 <= i < at ==> (#[trigger] children[i]).segment != segment
}

/// A listing in which the first child of this name leads to `entry`.
pub open spec fn replaced<T, C>(
    children: Seq<ChildModel<T, C>>,
    segment: Seq<char>,
    entry: EntryModel<T, C>,
) -> Seq<ChildModel<T, C>> {
    if exists|at: int| first_named(children, segment, at) {
        let at = choose|at: int| first_named(children, segment, at);
        children.update(at, ChildModel { segment, entry })
    } else {
        children
    }
}

impl<T, C> BrowserModel<T, C> {
    /// The state before the first event.
    pub open spec fn start() -> Self {
        BrowserModel { frames: seq![], segments: seq![], needs_close: false, saving: false }
    }

    /// Every frame but the top one is a directory whose selected child is the one
    /// that was opened, and `segments` holds the names of those children.
    pub open spec fn wf(self) -> bool {
        &&& self.segments.len() == if self.frames.len() == 0 {
            0
        } else {
            self.frames.len() - 1
        }
        &&& forall|i: int|
            0 <= i < self.frames.len() - 1 ==> opened_at(
                #[trigger] self.frames[i],
                self.segments[i],
            )
    }

    /// Whether the top frame waits for a tree.
    pub open spec fn loading(self) -> bool {
        self.frames.len() > 0 && self.frames.last() is Pending
    }

    /// Whether the tree can be written: its root is on screen, and open.
    pub open spec fn can_save(self) -> bool {
        self.frames.len() == 1 && !(self.frames[0] is Pending)
    }

    /// The state with another top frame.
    pub open spec fn with_top(self, frame: FrameModel<T, C>) -> Self {
        BrowserModel { frames: self.frames.drop_last().push(frame), ..self }
    }

    /// The state with the top frame's selection settled.
    pub open spec fn focused(self) -> Self {
        if self.frames.len() > 0 {
            self.with_top(self.frames.last().focused())
        } else {
            self
        }
    }

    /// The state without its top frame. What that frame shows takes the place of
    /// the child that was opened; a frame that is still being opened is dropped.
    pub open spec fn closed(self) -> Self {
        let below = BrowserModel {
            frames: self.frames.drop_last(),
            segments: self.segments.drop_last(),
            ..self
        };
        match (self.frames.last().entry(), below.frames.last()) {
            (Some(entry), FrameModel::Directory { children, selected, offset }) => below.with_top(
                FrameModel::Directory {
                    children: replaced(children, self.segments.last(), entry),
                    selected,
                    offset,
                },
            ),
            _ => below,
        }
    }

    /// Whether there is a selected child to open.
    pub open spec fn can_open(self) -> bool {
        &&& self.frames.len() > 0
        &&& self.frames.last() matches FrameModel::Directory { children, selected, .. }
        &&& selection(selected) < children.len()
    }

    /// The state after a key other than those that quit.
    pub open spec fn pressed(self, key: Key) -> Self {
        match key {
            Key::Left => if self.frames.len() > 1 {
                self.closed().focused()
            } else {
                self.focused()
            },
            Key::Right => if self.can_open() {
                let children = self.frames.last()->Directory_children;
                let at = selection(self.frames.last()->Directory_selected);
                BrowserModel {
                    frames: self.focused().frames.push(FrameModel::Pending),
                    segments: self.segments.push(children[at as int].segment),
                    ..self
                }
            } else {
                self.focused()
            },
            Key::Char(c) => if c == 'w' && self.can_save() {
                BrowserModel { frames: seq![], saving: true, ..self }
            } else {
                self.focused()
            },
            _ => if self.frames.len() > 0 {
                self.with_top(self.frames.last().acted(key))
            } else {
                self
            },
        }
    }

    /// The state after an event.
    pub open spec fn after(self, event: EventModel<T, C>) -> Self {
        match event {
            EventModel::Chunks => BrowserModel {
                frames: seq![FrameModel::Pending],
                segments: seq![],
                needs_close: true,
                saving: self.saving,
            },
            EventModel::KeyPress(key) => if quits(key) {
                self
            } else {
                self.pressed(key)
            },
            EventModel::Loaded(loaded) => if self.loading() {
                self.with_top(loaded_frame(loaded))
            } else {
                self
            },
            EventModel::Drawn { selected, offset } => if self.frames.len() > 0 {
                match self.frames.last() {
                    FrameModel::Directory { children, .. } => self.with_top(
                        FrameModel::Directory { children, selected, offset },
                    ),
                    _ => self,
                }
            } else {
                self
            },
            _ => self,
        }
    }

    /// What an event asks for.
    pub open spec fn action(self, event: EventModel<T, C>) -> ActionModel<T, C> {
        match event {
            EventModel::Chunks => ActionModel::LoadReceived,
            EventModel::Saved | EventModel::End => ActionModel::Quit,
            EventModel::KeyPress(key) => if quits(key) {
                ActionModel::Quit
            } else if key == Key::Right && self.can_open() {
                ActionModel::LoadChild
            } else if key == Key::Char('w') && self.can_save() {
                ActionModel::Save(self.frames[0].entry()->Some_0)
            } else {
                ActionModel::Continue
            },
            _ => ActionModel::Continue,
        }
    }
}

/// Whether a key ends browsing.
pub open spec fn quits(key: Key) -> bool {
    key == Key::Esc || key == Key::Char('c')
}

/// Whether the frame is a directory whose selected child has this name.
pub open spec fn opened_at<T, C>(frame: FrameModel<T, C>, segment: Seq<char>) -> bool {
    match frame {
        FrameModel::Directory { children, selected: Some(at), .. } => {
            &&& at < children.len()
            &&& children[at as int].segment == segment
        },
        _ => false,
    }
}

/// A browser of received trees.
pub struct Browser<T, C> {
    frames: Vec<BrowseFrame<T, C>>,
    segments: Vec<String>,
    needs_close: bool,
    saving: bool,
}

/// Frames as mathematical values.
spec fn frames_model<T, C>(frames: Seq<BrowseFrame<T, C>>) -> Seq<FrameModel<T, C>> {
    Seq::new(frames.len(), |i: int| frames[i].model())
}

/// Names as mathematical values.
spec fn segments_model(segments: Seq<String>) -> Seq<Seq<char>> {
    Seq::new(segments.len(), |i: int| segments[i]@)
}

impl<T, C> View for Browser<T, C> {
    type V = BrowserModel<T, C>;

    closed spec fn view(&self) -> BrowserModel<T, C> {
        BrowserModel {
            frames: frames_model(self.frames@),
            segments: segments_model(self.segments@),
            needs_close: self.needs_close,
            saving: self.saving,
        }
    }
}

impl<T, C> BrowseEvent<T, C> {
    /// The event as a mathematical value.
    pub open spec fn model(self) -> EventModel<T, C> {
        match self {
            BrowseEvent::Chunks => EventModel::Chunks,
            BrowseEvent::Notify => EventModel::Notify,
            BrowseEvent::KeyPress(key) => EventModel::KeyPress(key),
            BrowseEvent::Terminal => EventModel::Terminal,
            BrowseEvent::Loaded(loaded) => EventModel::Loaded(loaded.model()),
            BrowseEvent::Drawn { selected, offset } => EventModel::Drawn { selected, offset },
            BrowseEvent::Saved => EventModel::Saved,
            BrowseEvent::End => EventModel::End,
        }
    }
}

impl<T, C> Action<T, C> {
    /// The action as a mathematical value.
    pub open spec fn model(self) -> ActionModel<T, C> {
        match self {
            Action::Continue => ActionModel::Continue,
            Action::LoadReceived => ActionModel::LoadReceived,
            Action::LoadChild => ActionModel::LoadChild,
            Action::Save(entry) => ActionModel::Save(entry.model()),
            Action::Quit => ActionModel::Quit,
        }
    }
}

/// Makes the first child of this name lead to `entry`.
fn replace_named<T, C>(children: &mut Vec<Child<T, C>>, segment: &String, entry: Entry<T, C>)
    ensures
        children_model(final(children)@) == replaced(
            children_model(old(children)@),
            segment@,
            entry.model(),
        ),
{
    let ghost model = children_model(children@);
    let mut at: usize = 0;
    while at < children.len()
        invariant
            at <= children@.len(),
            children@ == old(children)@,
            model == children_model(children@),
            forall|i: int| 0 <= i < at ==> (#[trigger] model[i]).segment != segment@,
        ensures
            at <= children@.len(),
            children@ == old(children)@,
            forall|i: int| 0 <= i < at ==> (#[trigger] model[i]).segment != segment@,
            at < children@.len() ==> model[at as int].segment == segment@,
        decreases children@.len() - at,
    {
        if children[at].segment == *segment {
            break;
        }
        at = at + 1;
    }
    if at < children.len() {
        let name = segment.clone();
        children[at] = Child { segment: name, entry };
        proof {
            assert(first_named(model, segment@, at as int));
            let first = choose|k: int| first_named(model, segment@, k);
            assert(first == at);
            assert(children_model(children@) =~= model.update(
                at as int,
                ChildModel { segment: segment@, entry: entry.model() },
            ));
        }
    } else {
        proof {
            assert forall|k: int| !first_named(model, segment@, k) by {
                if first_named(model, segment@, k) {
                    assert(model[k].segment == segment@);
                }
            }
        }
    }
}

impl<T, C> Browser<T, C> {
    /// A browser with nothing to show.
    pub fn new() -> (browser: Self)
        ensures
            browser@ == BrowserModel::<T, C>::start(),
            browser@.wf(),
            browser@.frames.len() == 0,
            browser@.segments.len() == 0,
            !browser@.needs_close,
            !browser@.saving,
    {
        let browser = Browser {
            frames: Vec::new(),
            segments: Vec::new(),
            needs_close: false,
            saving: false,
        };
        proof {
            assert(browser@ =~= BrowserModel::<T, C>::start());
        }
        browser
    }

    /// Puts a frame in the place of the top one.
    fn put_top(&mut self, frame: BrowseFrame<T, C>)
        requires
            old(self)@.frames.len() > 0,
        ensures
            final(self)@ == old(self)@.with_top(frame.model()),
    {
        let _ = self.frames.pop();
        self.frames.push(frame);
        proof {
            assert(self@ =~= old(self)@.with_top(frame.model()));
        }
    }

    /// Lets a key act on the listing of the top frame.
    fn act(&mut self, key: Key)
        ensures
            final(self)@ == if old(self)@.frames.len() > 0 {
                old(self)@.with_top(old(self)@.frames.last().acted(key))
            } else {
                old(self)@
            },
    {
        let ghost before = self@;
        match self.frames.pop() {
            None => {
                proof {
                    assert(self@ =~= before);
                }
            },
            Some(BrowseFrame::Directory { children, selected, offset }) => {
                let mut children = children;
                let ghost model = children_model(children@);
                let mut at: usize = match selected {
                    Some(at) => at,
                    None => 0,
                };
                match key {
                    Key::Up => {
                        at = at.saturating_sub(1);
                    },
                    Key::Down => {
                        at = at.saturating_add(1);
                    },
                    Key::Delete => {
                        if at < children.len() {
                            let _ = children.remove(at);
                            proof {
                                assert(children_model(children@) =~= model.remove(at as int));
                            }
                        }
                    },
                    _ => {},
                }
                self.frames.push(
                    BrowseFrame::Directory { children, selected: Some(at), offset },
                );
                proof {
                    assert(self@ =~= before.with_top(before.frames.last().acted(key)));
                }
            },
            Some(frame) => {
                self.frames.push(frame);
                proof {
                    assert(self@ =~= before.with_top(before.frames.last().acted(key)));
                }
            },
        }
    }

    /// Goes back to the frame below and leaves there what the top one shows.
    fn close(&mut self)
        requires
            old(self)@.frames.len() > 1,
            old(self)@.wf(),
        ensures
            final(self)@ == old(self)@.closed(),
    {
        let ghost before = self@;
        if let Some(frame) = self.frames.pop() {
            if let Some(segment) = self.segments.pop() {
                if let Some(entry) = frame.into_entry() {
                    match self.frames.pop() {
                        Some(BrowseFrame::Directory { children, selected, offset }) => {
                            let mut children = children;
                            replace_named(&mut children, &segment, entry);
                            self.frames.push(
                                BrowseFrame::Directory { children, selected, offset },
                            );
                        },
                        Some(parent) => {
                            self.frames.push(parent);
                        },
                        None => {},
                    }
                }
            }
        }
        proof {
            assert(self@ =~= before.closed());
        }
    }

    /// Opens the selected child, if there is one.
    fn open(&mut self) -> (opened: bool)
        ensures
            opened == old(self)@.can_open(),
            final(self)@ == old(self)@.pressed(Key::Right),
    {
        let ghost before = self@;
        self.act(Key::Right);
        let ghost focused = self@;
        proof {
            assert(focused =~= before.focused());
        }
        let mut segment: Option<String> = None;
        if self.frames.len() > 0 {
            proof {
                let top = self.frames@.last();
                assert(focused.frames.last() == top.model());
                assert(focused.frames.last() == before.frames.last().focused());
                if top is Directory {
                    let children = top->Directory_children@;
                    assert(children_model(children) == before.frames.last()->Directory_children);
                    assert(forall|i: int|
                        0 <= i < children.len() ==> children_model(children)[i].segment
                            == (#[trigger] children[i]).segment@);
                }
            }
            match &self.frames[self.frames.len() - 1] {
                BrowseFrame::Directory { children, selected: Some(at), .. } => {
                    if *at < children.len() {
                        segment = Some(children[*at].segment.clone());
                    }
                },
                _ => {},
            }
        }
        match segment {
            Some(segment) => {
                self.segments.push(segment);
                self.frames.push(BrowseFrame::Pending);
                proof {
                    assert(self@ =~= before.pressed(Key::Right));
                }
                true
            },
            None => false,
        }
    }

    /// Takes the whole tree off the stack, if it can be written.
    fn take_tree(&mut self) -> (entry: Option<Entry<T, C>>)
        ensures
            entry is Some <==> old(self)@.can_save(),
            entry is Some ==> Some(entry->Some_0.model()) == old(self)@.frames[0].entry(),
            final(self)@ == if old(self)@.can_save() {
                BrowserModel { frames: seq![], saving: true, ..old(self)@ }
            } else {
                old(self)@
            },
    {
        let ghost before = self@;
        if self.frames.len() != 1 {
            return None;
        }
        match self.frames.pop() {
            Some(BrowseFrame::Pending) => {
                self.frames.push(BrowseFrame::Pending);
                proof {
                    assert(self@ =~= before);
                }
                None
            },
            Some(frame) => {
                self.saving = true;
                proof {
                    assert(self@ =~= (BrowserModel { frames: seq![], saving: true, ..before }));
                }
                frame.into_entry()
            },
            None => None,
        }
    }

    /// Presses a key that does not quit.
    fn press(&mut self, key: Key) -> (action: Action<T, C>)
        requires
            old(self)@.wf(),
            !quits(key),
        ensures
            final(self)@ == old(self)@.pressed(key),
            action.model() == old(self)@.action(EventModel::KeyPress(key)),
    {
        let ghost before = self@;
        match key {
            Key::Left => {
                if self.frames.len() > 1 {
                    self.close();
                }
                self.act(key);
                proof {
                    assert(self@ =~= before.pressed(key));
                }
                Action::Continue
            },
            Key::Right => {
                if self.open() {
                    Action::LoadChild
                } else {
                    Action::Continue
                }
            },
            Key::Char('w') => {
                match self.take_tree() {
                    Some(entry) => Action::Save(entry),
                    None => {
                        self.act(key);
                        proof {
                            assert(self@ =~= before.pressed(key));
                        }
                        Action::Continue
                    },
                }
            },
            _ => {
                self.act(key);
                proof {
                    assert(self@ =~= before.pressed(key));
                }
                Action::Continue
            },
        }
    }

    /// Takes in an event, and says what it asks for.
    pub fn handle(&mut self, event: BrowseEvent<T, C>) -> (action: Action<T, C>)
        requires
            old(self)@.wf(),
        ensures
            final(self)@ == old(self)@.after(event.model()),
            final(self)@.wf(),
            action.model() == old(self)@.action(event.model()),
    {
        let ghost before = self@;
        proof {
            law_shape_is_kept(before, event.model());
        }
        match event {
            BrowseEvent::Chunks => {
                self.needs_close = true;
                self.frames.clear();
                self.segments.clear();
                self.frames.push(BrowseFrame::Pending);
                proof {
                    assert(self@ =~= before.after(event.model()));
                }
                Action::LoadReceived
            },
            BrowseEvent::KeyPress(Key::Esc) | BrowseEvent::KeyPress(Key::Char('c')) => Action::Quit,
            BrowseEvent::KeyPress(key) => self.press(key),
            BrowseEvent::Loaded(loaded) => {
                if self.is_loading() {
                    self.put_top(tree_to_frame(loaded));
                }
                Action::Continue
            },
            BrowseEvent::Drawn { selected, offset } => {
                match self.frames.pop() {
                    Some(BrowseFrame::Directory { children, .. }) => {
                        self.frames.push(BrowseFrame::Directory { children, selected, offset });
                    },
                    Some(frame) => {
                        self.frames.push(frame);
                    },
                    None => {},
                }
                proof {
                    assert(self@ =~= before.after(event.model()));
                }
                Action::Continue
            },
            BrowseEvent::Saved | BrowseEvent::End => Action::Quit,
            BrowseEvent::Notify | BrowseEvent::Terminal => Action::Continue,
        }
    }

    /// The frame that is on screen; none where there is nothing to show.
    pub fn top(&self) -> (top: Option<&BrowseFrame<T, C>>)
        ensures
            top is Some <==> self@.frames.len() > 0,
            top is Some ==> top->Some_0.model() == self@.frames.last(),
    {
        if self.frames.len() > 0 {
            Some(&self.frames[self.frames.len() - 1])
        } else {
            None
        }
    }

    /// Whether the top frame waits for a tree.
    pub fn is_loading(&self) -> (loading: bool)
        ensures
            loading == self@.loading(),
            loading == (self@.frames.len() > 0 && self@.frames.last() is Pending),
    {
        self.frames.len() > 0 && matches!(&self.frames[self.frames.len() - 1], BrowseFrame::Pending)
    }

    /// Whether a tree has arrived, so that its sender is to be heard out at the
    /// end.
    pub fn needs_close(&self) -> (needs: bool)
        ensures
            needs == self@.needs_close,
    {
        self.needs_close
    }

    /// Whether a tree is being written.
    pub fn is_saving(&self) -> (saving: bool)
        ensures
            saving == self@.saving,
    {
        self.saving
    }

    /// The child that the top frame waits for; none where it waits for nothing or
    /// for the root.
    pub fn loading_child(&self) -> (child: Option<&Child<T, C>>)
        requires
            self@.wf(),
        ensures
            child is Some <==> self@.loading() && self@.frames.len() > 1,
            child is Some <==> self@.frames.len() > 1 && self@.frames.last() is Pending,
            child is Some ==> {
                let parent = self@.frames[self@.frames.len() - 2];
                child->Some_0.model()
                    == parent->Directory_children[parent->Directory_selected->Some_0 as int]
            },
            child is Some ==> child->Some_0.segment@ == self@.segments.last(),
    {
        if self.frames.len() < 2 || !self.is_loading() {
            return None;
        }
        proof {
            let below = self@.frames.len() - 2;
            assert(opened_at(self@.frames[below], self@.segments[below]));
        }
        match &self.frames[self.frames.len() - 2] {
            BrowseFrame::Directory { children, selected: Some(at), .. } => {
                if *at < children.len() {
                    Some(&children[*at])
                } else {
                    None
                }
            },
            _ => None,
        }
    }
}

/// Law: no event takes the browser out of the states in which the names lead from
/// each frame to the next.
pub proof fn law_shape_is_kept<T, C>(state: BrowserModel<T, C>, event: EventModel<T, C>)
    requires
        state.wf(),
    ensures
        state.after(event).wf(),
{
    let next = state.after(event);
    assert forall|i: int| 0 <= i < next.frames.len() - 1 implies opened_at(
        #[trigger] next.frames[i],
        next.segments[i],
    ) by {
        if i < state.frames.len() - 1 {
            assert(opened_at(state.frames[i], state.segments[i]));
        }
    }
}

} // verus!
