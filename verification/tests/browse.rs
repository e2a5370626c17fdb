use rainbow_beacon::browse::{Action, BrowseEvent, BrowseFrame, Browser, Key};
use rainbow_beacon::entry::{sort_children, Child, Entry, Loaded};
use rainbow_beacon::screen::{screen, Screen};

type E = Entry<u32, char>;
type B = Browser<u32, char>;

fn unopened(name: &str, is_file: bool, tree: u32) -> Child<u32, char> {
    Child { segment: name.to_string(), entry: Entry::Unopened { is_file, tree } }
}

fn press(browser: &mut B, key: Key) -> Action<u32, char> {
    browser.handle(BrowseEvent::KeyPress(key))
}

fn listing() -> Vec<Child<u32, char>> {
    vec![
        unopened("a", true, 1),
        unopened("b", false, 2),
        unopened("c", true, 3),
        unopened("d", false, 4),
    ]
}

fn at_root() -> B {
    let mut browser: B = Browser::new();
    assert_eq!(browser.handle(BrowseEvent::Chunks), Action::LoadReceived);
    let loaded = Loaded::Directory { children: listing() };
    assert_eq!(browser.handle(BrowseEvent::Loaded(loaded)), Action::Continue);
    browser
}

fn lines(browser: &B) -> Vec<String> {
    match screen(browser) {
        Screen::Listing { lines, .. } => lines,
        other => panic!("{:?}", other),
    }
}

fn selected(browser: &B) -> Option<usize> {
    match screen(browser) {
        Screen::Listing { selected, .. } => selected,
        other => panic!("{:?}", other),
    }
}

fn message(browser: &B) -> String {
    match screen(browser) {
        Screen::Message(text) => text,
        other => panic!("{:?}", other),
    }
}

fn saved(action: Action<u32, char>) -> E {
    match action {
        Action::Save(entry) => entry,
        other => panic!("{:?}", other),
    }
}

#[test]
fn nothing_to_show_at_first() {
    let browser: B = Browser::new();
    assert_eq!(message(&browser), "nothing available");
    assert!(browser.top().is_none());
    assert!(!browser.is_loading());
    assert!(!browser.needs_close());
    assert!(!browser.is_saving());
}

#[test]
fn arrival_is_loaded() {
    let mut browser: B = Browser::new();
    assert_eq!(browser.handle(BrowseEvent::Chunks), Action::LoadReceived);
    assert!(browser.is_loading());
    assert!(browser.needs_close());
    assert!(browser.loading_child().is_none());
    assert_eq!(message(&browser), "loading...");
    assert_eq!(browser.top(), Some(&BrowseFrame::Pending));
}

#[test]
fn file_shows_its_length() {
    let mut browser: B = Browser::new();
    browser.handle(BrowseEvent::Chunks);
    browser.handle(BrowseEvent::Loaded(Loaded::File { chunks: 'x', len: 12345 }));
    assert_eq!(message(&browser), "this is a file (12345 bytes)");
    assert_eq!(browser.top(), Some(&BrowseFrame::File { chunks: 'x', len: 12345 }));
}

#[test]
fn directories_are_listed_first_and_with_a_slash() {
    let browser = at_root();
    assert_eq!(lines(&browser), ["b/", "d/", "a", "c"]);
    assert_eq!(selected(&browser), Some(0));
}

#[test]
fn sorting_is_stable_and_idempotent() {
    let sorted = sort_children(vec![
        unopened("z", true, 1),
        unopened("y", false, 2),
        unopened("a", true, 3),
        unopened("x", false, 4),
        unopened("b", true, 5),
    ]);
    let names: Vec<&str> = sorted.iter().map(|c| c.segment.as_str()).collect();
    assert_eq!(names, ["y", "x", "z", "a", "b"]);
    let again = sort_children(sorted);
    let names: Vec<&str> = again.iter().map(|c| c.segment.as_str()).collect();
    assert_eq!(names, ["y", "x", "z", "a", "b"]);
    let none: Vec<Child<u32, char>> = sort_children(vec![]);
    assert!(none.is_empty());
}

#[test]
fn opened_entries_know_what_they_are() {
    let file: E = Entry::File { chunks: 'x' };
    let directory: E = Entry::Directory { children: vec![] };
    let unopened_file: E = Entry::Unopened { is_file: true, tree: 1 };
    assert!(file.is_file());
    assert!(!directory.is_file());
    assert!(unopened_file.is_file());
}

#[test]
fn frames_turn_into_entries() {
    let pending: BrowseFrame<u32, char> = BrowseFrame::Pending;
    assert_eq!(pending.into_entry(), None);
    let file: BrowseFrame<u32, char> = BrowseFrame::File { chunks: 'x', len: 3 };
    assert_eq!(file.into_entry(), Some(Entry::File { chunks: 'x' }));
    let directory: BrowseFrame<u32, char> =
        BrowseFrame::Directory { children: listing(), selected: Some(2), offset: 1 };
    assert_eq!(directory.into_entry(), Some(Entry::Directory { children: listing() }));
}

#[test]
fn selection_moves_and_stops_at_the_ends() {
    let mut browser = at_root();
    assert_eq!(press(&mut browser, Key::Up), Action::Continue);
    assert_eq!(selected(&browser), Some(0));
    press(&mut browser, Key::Down);
    press(&mut browser, Key::Down);
    assert_eq!(selected(&browser), Some(2));
    press(&mut browser, Key::Up);
    assert_eq!(selected(&browser), Some(1));
    browser.handle(BrowseEvent::Drawn { selected: Some(usize::MAX), offset: 0 });
    press(&mut browser, Key::Down);
    assert_eq!(selected(&browser), Some(usize::MAX));
}

#[test]
fn down_then_up_is_the_same_line() {
    let mut browser = at_root();
    press(&mut browser, Key::Down);
    let before = screen(&browser);
    press(&mut browser, Key::Down);
    press(&mut browser, Key::Up);
    assert_eq!(screen(&browser), before);
}

#[test]
fn drawing_settles_the_listing() {
    let mut browser = at_root();
    assert_eq!(
        browser.handle(BrowseEvent::Drawn { selected: None, offset: 3 }),
        Action::Continue
    );
    match screen(&browser) {
        Screen::Listing { selected, offset, .. } => assert_eq!((selected, offset), (None, 3)),
        other => panic!("{:?}", other),
    }
    press(&mut browser, Key::Other);
    assert_eq!(selected(&browser), Some(0));
}

#[test]
fn drawing_a_message_settles_nothing() {
    let mut browser: B = Browser::new();
    browser.handle(BrowseEvent::Drawn { selected: Some(1), offset: 1 });
    assert!(browser.top().is_none());
    browser.handle(BrowseEvent::Chunks);
    browser.handle(BrowseEvent::Drawn { selected: Some(1), offset: 1 });
    assert_eq!(browser.top(), Some(&BrowseFrame::Pending));
}

#[test]
fn delete_removes_the_selected_child() {
    let mut browser = at_root();
    press(&mut browser, Key::Down);
    assert_eq!(press(&mut browser, Key::Delete), Action::Continue);
    assert_eq!(lines(&browser), ["b/", "a", "c"]);
    assert_eq!(selected(&browser), Some(1));
    browser.handle(BrowseEvent::Drawn { selected: Some(3), offset: 0 });
    press(&mut browser, Key::Delete);
    assert_eq!(lines(&browser), ["b/", "a", "c"]);
}

#[test]
fn right_opens_the_selected_child() {
    let mut browser = at_root();
    press(&mut browser, Key::Down);
    assert_eq!(press(&mut browser, Key::Right), Action::LoadChild);
    assert!(browser.is_loading());
    assert_eq!(browser.loading_child(), Some(&unopened("d", false, 4)));
}

#[test]
fn right_with_nothing_selected_opens_nothing() {
    let mut browser = at_root();
    browser.handle(BrowseEvent::Drawn { selected: Some(4), offset: 0 });
    assert_eq!(press(&mut browser, Key::Right), Action::Continue);
    assert!(!browser.is_loading());
    let mut empty: B = Browser::new();
    assert_eq!(press(&mut empty, Key::Right), Action::Continue);
}

#[test]
fn left_from_an_unopened_child_changes_nothing() {
    let mut browser = at_root();
    press(&mut browser, Key::Right);
    assert_eq!(press(&mut browser, Key::Left), Action::Continue);
    assert_eq!(lines(&browser), ["b/", "d/", "a", "c"]);
    let tree = saved(press(&mut browser, Key::Char('w')));
    assert_eq!(tree, Entry::Directory { children: sort_children(listing()) });
}

#[test]
fn left_at_the_root_stays() {
    let mut browser = at_root();
    press(&mut browser, Key::Left);
    assert_eq!(lines(&browser), ["b/", "d/", "a", "c"]);
    let mut loading: B = Browser::new();
    loading.handle(BrowseEvent::Chunks);
    press(&mut loading, Key::Left);
    assert!(loading.is_loading());
}

#[test]
fn edits_below_are_saved_with_the_tree() {
    let mut browser = at_root();
    press(&mut browser, Key::Right);
    browser.handle(BrowseEvent::Loaded(Loaded::Directory {
        children: vec![unopened("x", true, 5), unopened("y", false, 6)],
    }));
    assert_eq!(lines(&browser), ["y/", "x"]);
    press(&mut browser, Key::Right);
    browser.handle(BrowseEvent::Loaded(Loaded::Directory {
        children: vec![unopened("p", true, 7), unopened("q", true, 8)],
    }));
    press(&mut browser, Key::Delete);
    assert_eq!(lines(&browser), ["q"]);
    press(&mut browser, Key::Left);
    assert_eq!(lines(&browser), ["y/", "x"]);
    press(&mut browser, Key::Left);
    assert_eq!(lines(&browser), ["b/", "d/", "a", "c"]);
    let y = Entry::Directory { children: vec![unopened("q", true, 8)] };
    let b = Entry::Directory {
        children: vec![Child { segment: "y".to_string(), entry: y }, unopened("x", true, 5)],
    };
    let root = Entry::Directory {
        children: vec![
            Child { segment: "b".to_string(), entry: b },
            unopened("d", false, 4),
            unopened("a", true, 1),
            unopened("c", true, 3),
        ],
    };
    assert_eq!(saved(press(&mut browser, Key::Char('w'))), root);
    assert!(browser.is_saving());
    assert_eq!(message(&browser), "saving...");
    assert!(browser.top().is_none());
    assert_eq!(browser.handle(BrowseEvent::Saved), Action::Quit);
}

#[test]
fn opened_file_takes_the_place_of_its_tree() {
    let mut browser = at_root();
    press(&mut browser, Key::Down);
    press(&mut browser, Key::Down);
    press(&mut browser, Key::Right);
    assert_eq!(browser.loading_child(), Some(&unopened("a", true, 1)));
    browser.handle(BrowseEvent::Loaded(Loaded::File { chunks: 'a', len: 1 }));
    press(&mut browser, Key::Left);
    assert_eq!(lines(&browser), ["b/", "d/", "a", "c"]);
    assert_eq!(selected(&browser), Some(2));
    match browser.top() {
        Some(BrowseFrame::Directory { children, .. }) => {
            assert_eq!(children[2].entry, Entry::File { chunks: 'a' });
            assert_eq!(children[3], unopened("c", true, 3));
        }
        other => panic!("{:?}", other),
    }
}

#[test]
fn first_of_equal_names_is_replaced() {
    let mut browser: B = Browser::new();
    browser.handle(BrowseEvent::Chunks);
    browser.handle(BrowseEvent::Loaded(Loaded::Directory {
        children: vec![unopened("n", true, 1), unopened("n", true, 2)],
    }));
    press(&mut browser, Key::Down);
    press(&mut browser, Key::Right);
    browser.handle(BrowseEvent::Loaded(Loaded::File { chunks: 'n', len: 1 }));
    press(&mut browser, Key::Left);
    match browser.top() {
        Some(BrowseFrame::Directory { children, .. }) => {
            assert_eq!(children[0].entry, Entry::File { chunks: 'n' });
            assert_eq!(children[1], unopened("n", true, 2));
        }
        other => panic!("{:?}", other),
    }
}

#[test]
fn only_an_open_root_is_saved() {
    let mut browser: B = Browser::new();
    assert_eq!(press(&mut browser, Key::Char('w')), Action::Continue);
    browser.handle(BrowseEvent::Chunks);
    assert_eq!(press(&mut browser, Key::Char('w')), Action::Continue);
    assert!(browser.is_loading());
    let mut below = at_root();
    press(&mut below, Key::Right);
    below.handle(BrowseEvent::Loaded(Loaded::Directory { children: vec![] }));
    assert_eq!(press(&mut below, Key::Char('w')), Action::Continue);
    assert!(!below.is_saving());
    let mut file: B = Browser::new();
    file.handle(BrowseEvent::Chunks);
    file.handle(BrowseEvent::Loaded(Loaded::File { chunks: 'f', len: 9 }));
    assert_eq!(press(&mut file, Key::Char('w')), Action::Save(Entry::File { chunks: 'f' }));
}

#[test]
fn keys_wait_for_loading() {
    let mut browser = at_root();
    press(&mut browser, Key::Right);
    for key in [Key::Up, Key::Down, Key::Delete, Key::Right, Key::Char('w'), Key::Other] {
        assert_eq!(press(&mut browser, key), Action::Continue);
        assert_eq!(browser.loading_child(), Some(&unopened("b", false, 2)));
    }
}

#[test]
fn escape_and_c_quit_anywhere() {
    for key in [Key::Esc, Key::Char('c')] {
        let mut browser: B = Browser::new();
        assert_eq!(press(&mut browser, key), Action::Quit);
        browser.handle(BrowseEvent::Chunks);
        assert_eq!(press(&mut browser, key), Action::Quit);
        assert!(browser.is_loading());
        let mut root = at_root();
        let before = screen(&root);
        assert_eq!(press(&mut root, key), Action::Quit);
        assert_eq!(screen(&root), before);
    }
}

#[test]
fn other_events_only_wake_up() {
    let mut browser = at_root();
    let before = screen(&browser);
    assert_eq!(browser.handle(BrowseEvent::Notify), Action::Continue);
    assert_eq!(browser.handle(BrowseEvent::Terminal), Action::Continue);
    assert_eq!(press(&mut browser, Key::Char('x')), Action::Continue);
    assert_eq!(screen(&browser), before);
    assert_eq!(browser.handle(BrowseEvent::End), Action::Quit);
}

#[test]
fn late_load_is_ignored() {
    let mut browser = at_root();
    let before = screen(&browser);
    browser.handle(BrowseEvent::Loaded(Loaded::File { chunks: 'x', len: 1 }));
    assert_eq!(screen(&browser), before);
}

#[test]
fn another_arrival_starts_over() {
    let mut browser = at_root();
    press(&mut browser, Key::Right);
    browser.handle(BrowseEvent::Loaded(Loaded::Directory { children: vec![] }));
    assert_eq!(browser.handle(BrowseEvent::Chunks), Action::LoadReceived);
    assert!(browser.is_loading());
    assert!(browser.loading_child().is_none());
    press(&mut browser, Key::Left);
    assert!(browser.is_loading());
}
