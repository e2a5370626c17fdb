//! What the browser shows.

use crate::browse::{Browser, BrowserModel, BrowseFrame, FrameModel};
use crate::entry::{children_model, Child, ChildModel};
use crate::text::{decimal, decimal_text};
use vstd::prelude::*;
use vstd::string::*;

verus! {

/// The content of the screen.
#[derive(Debug, PartialEq, Eq)]
pub enum Screen {
    /// A single text.
    Message(String),
    /// A listing, with its selection and scroll offset.
    Listing { lines: Vec<String>, selected: Option<usize>, offset: usize },
}

/// The content of the screen as a mathematical value.
pub enum ScreenModel {
    Message(Seq<char>),
    Listing { lines: Seq<Seq<char>>, selected: Option<usize>, offset: usize },
}

/// The line of a child: its name, with a slash behind that of a directory.
pub open spec fn child_line<T, C>(child: ChildModel<T, C>) -> Seq<char> {
    if child.entry.is_file() {
        child.segment
    } else {
        child.segment + "/"@
    }
}

/// The lines of a listing.
pub open spec fn listing_lines<T, C>(children: Seq<ChildModel<T, C>>) -> Seq<Seq<char>> {
    Seq::new(children.len(), |i: int| child_line(children[i]))
}

/// The content of the screen in a given state.
pub open spec fn screen_of<T, C>(state: BrowserModel<T, C>) -> ScreenModel {
    if state.saving {
        ScreenModel::Message("saving..."@)
    } else if state.frames.len() == 0 {
        ScreenModel::Message("nothing available"@)
    } else {
        match state.frames.last() {
            FrameModel::Pending => ScreenModel::Message("loading..."@),
            FrameModel::File { len, .. } => ScreenModel::Message(
                "this is a file ("@ + decimal_text(len as nat) + " bytes)"@,
            ),
            FrameModel::Directory { children, selected, offset } => ScreenModel::Listing {
                lines: listing_lines(children),
                selected,
                offset,
            },
        }
    }
}

impl Screen {
    /// The content as a mathematical value.
    pub open spec fn model(self) -> ScreenModel {
        match self {
            Screen::Message(text) => ScreenModel::Message(text@),
            Screen::Listing { lines, selected, offset } => ScreenModel::Listing {
                lines: Seq::new(lines@.len(), |i: int| lines@[i]@),
                selected,
                offset,
            },
        }
    }
}

/// Writes the line of a child.
fn line<T, C>(child: &Child<T, C>) -> (line: String)
    ensures
        line@ == child_line(child.model()),
{
    let name = String::from_str(child.segment.as_str());
    if child.entry.is_file() {
        name
    } else {
        name.concat("/")
    }
}

/// Writes the lines of a listing.
fn lines<T, C>(children: &Vec<Child<T, C>>) -> (lines: Vec<String>)
    ensures
        Seq::new(lines@.len(), |i: int| lines@[i]@) == listing_lines(children_model(children@)),
{
    let mut lines: Vec<String> = Vec::new();
    for i in 0..children.len()
        invariant
            lines@.len() == i,
            forall|k: int|
                0 <= k < i ==> (#[trigger] lines@[k])@ == child_line(children@[k].model()),
    {
        lines.push(line(&children[i]));
    }
    proof {
        assert(Seq::new(lines@.len(), |i: int| lines@[i]@) =~= listing_lines(
            children_model(children@),
        ));
    }
    lines
}

/// What to draw.
pub fn screen<T, C>(browser: &Browser<T, C>) -> (screen: Screen)
    ensures
        screen.model() == screen_of(browser@),
{
    if browser.is_saving() {
        return Screen::Message(String::from_str("saving..."));
    }
    match browser.top() {
        None => Screen::Message(String::from_str("nothing available")),
        Some(BrowseFrame::Pending) => Screen::Message(String::from_str("loading...")),
        Some(BrowseFrame::File { len, .. }) => {
            let mut text = String::from_str("this is a file (");
            text.append(decimal(*len).as_str());
            text.append(" bytes)");
            Screen::Message(text)
        },
        Some(BrowseFrame::Directory { children, selected, offset }) => Screen::Listing {
            lines: lines(children),
            selected: *selected,
            offset: *offset,
        },
    }
}

/// Law: while a tree is written the screen says so, whatever is open.
pub proof fn law_screen_while_saving<T, C>(state: BrowserModel<T, C>)
    requires
        state.saving,
    ensures
        screen_of(state) == ScreenModel::Message("saving..."@),
{
}

/// Law: otherwise the screen shows the top frame: that there is none, that it is
/// being opened, or the length of a file.
pub proof fn law_screen_of_a_message<T, C>(state: BrowserModel<T, C>)
    requires
        !state.saving,
    ensures
        state.frames.len() == 0 ==> screen_of(state) == ScreenModel::Message(
            "nothing available"@,
        ),
        state.frames.len() > 0 && state.frames.last() is Pending ==> screen_of(state)
            == ScreenModel::Message("loading..."@),
        state.frames.len() > 0 ==> (state.frames.last() matches FrameModel::File { len, .. }
            ==> screen_of(state) == ScreenModel::Message(
            "this is a file ("@ + decimal_text(len as nat) + " bytes)"@,
        )),
{
}

/// Law: a directory on top is shown with one line for each child, in order, each
/// the child's whole name, with a slash behind it where the child is no file; the
/// selection and the scroll offset are those of the frame.
pub proof fn law_screen_of_a_listing<T, C>(
    state: BrowserModel<T, C>,
    children: Seq<ChildModel<T, C>>,
    selected: Option<usize>,
    offset: usize,
    i: int,
)
    requires
        !state.saving,
        state.frames.len() > 0,
        state.frames.last() == (FrameModel::Directory { children, selected, offset }),
        0 <= i < children.len(),
    ensures
        ({
            let shown = screen_of(state);
            &&& shown is Listing
            &&& shown->selected == selected
            &&& shown->offset == offset
            &&& shown->lines.len() == children.len()
            &&& children[i].entry.is_file() ==> shown->lines[i] == children[i].segment
            &&& !children[i].entry.is_file() ==> shown->lines[i] == children[i].segment + "/"@
        }),
{
}

/// Law: an empty directory is shown as a listing with no line.
pub proof fn law_screen_of_an_empty_listing<T, C>(
    state: BrowserModel<T, C>,
    selected: Option<usize>,
    offset: usize,
)
    requires
        !state.saving,
        state.frames.len() > 0,
        state.frames.last() == (FrameModel::Directory {
            children: Seq::<ChildModel<T, C>>::empty(),
            selected,
            offset,
        }),
    ensures
        screen_of(state) == (ScreenModel::Listing { lines: seq![], selected, offset }),
{
    assert(listing_lines(Seq::<ChildModel<T, C>>::empty()) =~= seq![]);
}

/// Law: the model of a screen leaves nothing out: the text, or every line in its
/// place, the selection and the offset.
pub proof fn law_screen_model_is_faithful(screen: Screen, i: int)
    ensures
        screen matches Screen::Message(text) ==> screen.model() == ScreenModel::Message(text@),
        screen matches Screen::Listing { lines, selected, offset } ==> {
            &&& screen.model() is Listing
            &&& screen.model()->selected == selected
            &&& screen.model()->offset == offset
            &&& screen.model()->lines.len() == lines@.len()
            &&& 0 <= i < lines@.len() ==> screen.model()->lines[i] == lines@[i]@
        },
{
}

} // verus!
