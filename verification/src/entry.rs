//! Entries of a directory tree, and the order in which a listing shows them.
//!
//! `T` stands for a tree that has not been opened, `C` for the chunks of a file;
//! both only pass through.

use vstd::prelude::*;

verus! {

/// What a name in a directory leads to.
#[derive(Debug, PartialEq, Eq)]
pub enum Entry<T, C> {
    /// A tree as it was received.
    Unopened { is_file: bool, tree: T },
    /// A file that was opened.
    File { chunks: C },
    /// A directory that was opened, as it stands now.
    Directory { children: Vec<Child<T, C>> },
}

/// A named entry of a directory.
#[derive(Debug, PartialEq, Eq)]
pub struct Child<T, C> {
    pub segment: String,
    pub entry: Entry<T, C>,
}

/// What opening a tree has brought.
#[derive(Debug, PartialEq, Eq)]
pub enum Loaded<T, C> {
    File { chunks: C, len: usize },
    Directory { children: Vec<Child<T, C>> },
}

/// An entry, with sequences for its vectors and strings.
pub enum EntryModel<T, C> {
    Unopened { is_file: bool, tree: T },
    File { chunks: C },
    Directory { children: Seq<ChildModel<T, C>> },
}

/// A named entry, with sequences for its vectors and strings.
pub struct ChildModel<T, C> {
    pub segment: Seq<char>,
    pub entry: EntryModel<T, C>,
}

/// An opened tree, with sequences for its vectors and strings.
pub enum LoadedModel<T, C> {
    File { chunks: C, len: usize },
    Directory { children: Seq<ChildModel<T, C>> },
}

impl<T, C> EntryModel<T, C> {
    /// Whether the entry is a file.
    pub open spec fn is_file(self) -> bool {
        match self {
            EntryModel::Unopened { is_file, .. } => is_file,
            EntryModel::File { .. } => true,
            EntryModel::Directory { .. } => false,
        }
    }
}

impl<T, C> Entry<T, C> {
    /// The entry as a mathematical value.
    pub open spec fn model(self) -> EntryModel<T, C>
        decreases self,
    {
        match self {
            Entry::Unopened { is_file, tree } => EntryModel::Unopened { is_file, tree },
            Entry::File { chunks } => EntryModel::File { chunks },
            Entry::Directory { children } => EntryModel::Directory {
                children: Seq::new(
                    children@.len(),
                    |i: int|
                        if 0 <= i < children@.len() {
                            children@[i].model()
                        } else {
                            arbitrary()
                        },
                ),
            },
        }
    }

    /// Whether the entry is a file.
    pub fn is_file(&self) -> (file: bool)
        ensures
            file == self.model().is_file(),
            file == match *self {
                Entry::Unopened { is_file, .. } => is_file,
                Entry::File { .. } => true,
                Entry::Directory { .. } => false,
            },
    {
        match self {
            Entry::Unopened { is_file, .. } => *is_file,
            Entry::File { .. } => true,
            Entry::Directory { .. } => false,
        }
    }
}

impl<T, C> Child<T, C> {
    /// The named entry as a mathematical value.
    pub open spec fn model(self) -> ChildModel<T, C>
        decreases self,
    {
        ChildModel { segment: self.segment@, entry: self.entry.model() }
    }
}

/// A listing as a mathematical value.
pub open spec fn children_model<T, C>(children: Seq<Child<T, C>>) -> Seq<ChildModel<T, C>> {
    Seq::new(children.len(), |i: int| children[i].model())
}

impl<T, C> Loaded<T, C> {
    /// The opened tree as a mathematical value.
    pub open spec fn model(self) -> LoadedModel<T, C> {
        match self {
            Loaded::File { chunks, len } => LoadedModel::File { chunks, len },
            Loaded::Directory { children } => LoadedModel::Directory {
                children: children_model(children@),
            },
        }
    }
}

/// The model of a directory lists the models of its children.
pub proof fn lemma_directory_model<T, C>(children: Vec<Child<T, C>>)
    ensures
        (Entry::Directory { children }).model() == (EntryModel::Directory {
            children: children_model(children@),
        }),
{
    let entry = Entry::Directory { children };
    assert(entry.model()->Directory_children =~= children_model(children@));
}

/// Selects directories.
pub open spec fn directories<T, C>() -> spec_fn(ChildModel<T, C>) -> bool {
    |child: ChildModel<T, C>| !child.entry.is_file()
}

/// Selects files.
pub open spec fn files<T, C>() -> spec_fn(ChildModel<T, C>) -> bool {
    |child: ChildModel<T, C>| child.entry.is_file()
}

/// The order of a listing: directories, then files, each as they came.
pub open spec fn listing_order<T, C>(children: Seq<ChildModel<T, C>>) -> Seq<ChildModel<T, C>> {
    children.filter(directories()) + children.filter(files())
}

/// Puts directories before files and keeps the order within each.
pub fn sort_children<T, C>(children: Vec<Child<T, C>>) -> (sorted: Vec<Child<T, C>>)
    ensures
        children_model(sorted@) == listing_order(children_model(children@)),
{
    let ghost model = children_model(children@);
    let mut dirs: Vec<Child<T, C>> = Vec::new();
    let mut rest: Vec<Child<T, C>> = Vec::new();
    proof {
        reveal(Seq::filter);
        assert(children_model(dirs@) =~= model.take(0).filter(directories()));
        assert(children_model(rest@) =~= model.take(0).filter(files()));
    }
    for child in it: children
        invariant
            it.seq() == children@,
            model == children_model(children@),
            children_model(dirs@) == model.take(it.index() as int).filter(directories()),
            children_model(rest@) == model.take(it.index() as int).filter(files()),
    {
        let ghost i = it.index() as int;
        let ghost old_dirs = dirs@;
        let ghost old_rest = rest@;
        proof {
            reveal(Seq::filter);
            assert(model.take(i + 1).drop_last() =~= model.take(i));
            assert(model.take(i + 1).last() == child.model());
        }
        if child.entry.is_file() {
            rest.push(child);
            proof {
                assert(children_model(rest@) =~= children_model(old_rest).push(child.model()));
            }
        } else {
            dirs.push(child);
            proof {
                assert(children_model(dirs@) =~= children_model(old_dirs).push(child.model()));
            }
        }
    }
    proof {
        assert(model.take(children@.len() as int) =~= model);
    }
    let ghost head = dirs@;
    let ghost tail = rest@;
    dirs.append(&mut rest);
    proof {
        assert(children_model(dirs@) =~= children_model(head) + children_model(tail));
    }
    dirs
}

/// Selecting twice: what was selected stays where the second selection takes all
/// of it, and goes where it takes none.
proof fn lemma_filter_filter<A>(s: Seq<A>, first: spec_fn(A) -> bool, second: spec_fn(A) -> bool)
    ensures
        (forall|a: A| #[trigger] first(a) ==> second(a)) ==> s.filter(first).filter(second) == s.filter(first),
        (forall|a: A| #[trigger] first(a) ==> !second(a)) ==> s.filter(first).filter(second)
            == Seq::<A>::empty(),
    decreases s.len(),
{
    reveal(Seq::filter);
    if s.len() > 0 {
        lemma_filter_filter(s.drop_last(), first, second);
        if first(s.last()) {
            let head = s.drop_last().filter(first);
            assert(s.filter(first) == head.push(s.last()));
            assert(head.push(s.last()).drop_last() =~= head);
        }
    }
}

/// What is selected and what is not make up the whole.
proof fn lemma_filters_complement<T, C>(children: Seq<ChildModel<T, C>>)
    ensures
        children.filter(directories()).to_multiset().add(children.filter(files()).to_multiset())
            == children.to_multiset(),
    decreases children.len(),
{
    broadcast use vstd::seq_lib::group_to_multiset_ensures;

    reveal(Seq::filter);
    let dirs = children.filter(directories());
    let rest = children.filter(files());
    if children.len() == 0 {
        assert(dirs.to_multiset().add(rest.to_multiset()) =~= children.to_multiset());
    } else {
        let head = children.drop_last();
        let last = children.last();
        lemma_filters_complement(head);
        assert(children =~= head.push(last));
        assert(children.to_multiset() =~= head.to_multiset().insert(last));
        if last.entry.is_file() {
            assert(rest == head.filter(files()).push(last));
            assert(dirs == head.filter(directories()));
        } else {
            assert(dirs == head.filter(directories()).push(last));
            assert(rest == head.filter(files()));
        }
        assert(dirs.to_multiset().add(rest.to_multiset()) =~= children.to_multiset());
    }
}

/// Law: a listing shows every child exactly as often as it came.
pub proof fn law_listing_keeps_children<T, C>(children: Seq<ChildModel<T, C>>)
    ensures
        listing_order(children).to_multiset() == children.to_multiset(),
        listing_order(children).len() == children.len(),
{
    broadcast use vstd::seq_lib::group_to_multiset_ensures;

    lemma_filters_complement(children);
    vstd::seq_lib::lemma_multiset_commutative(
        children.filter(directories()),
        children.filter(files()),
    );
    assert(listing_order(children).to_multiset().len() == listing_order(children).len());
    assert(children.to_multiset().len() == children.len());
}

/// Law: in a listing no directory stands behind a file, directories stand in the
/// order in which they came, and so do files.
pub proof fn law_listing_is_ordered<T, C>(children: Seq<ChildModel<T, C>>)
    ensures
        forall|i: int, j: int|
            #![trigger listing_order(children)[i], listing_order(children)[j]]
            0 <= i < j < children.len() && listing_order(children)[i].entry.is_file()
                ==> listing_order(children)[j].entry.is_file(),
        listing_order(children).filter(directories()) == children.filter(directories()),
        listing_order(children).filter(files()) == children.filter(files()),
{
    law_listing_keeps_children(children);
    let dirs = children.filter(directories());
    let rest = children.filter(files());
    assert forall|i: int| 0 <= i < dirs.len() implies !(#[trigger] dirs[i]).entry.is_file() by {
        children.lemma_filter_pred(directories(), i);
    }
    assert forall|i: int| 0 <= i < rest.len() implies (#[trigger] rest[i]).entry.is_file() by {
        children.lemma_filter_pred(files(), i);
    }
    lemma_filter_filter(children, directories(), directories());
    lemma_filter_filter(children, files(), directories());
    lemma_filter_filter(children, directories(), files());
    lemma_filter_filter(children, files(), files());
    Seq::filter_distributes_over_add(dirs, rest, directories());
    Seq::filter_distributes_over_add(dirs, rest, files());
    assert(dirs + Seq::empty() =~= dirs);
    assert(Seq::empty() + rest =~= rest);
}

/// Law: a listing that is in order stays as it is.
pub proof fn law_listing_order_is_stable<T, C>(children: Seq<ChildModel<T, C>>)
    ensures
        listing_order(listing_order(children)) == listing_order(children),
{
    law_listing_is_ordered(children);
}

/// Law: a tree that was not opened is a file as it says itself, an opened file is
/// one, and an opened directory is none.
pub proof fn law_files_are_told_apart<T, C>(entry: EntryModel<T, C>)
    ensures
        entry matches EntryModel::Unopened { is_file, .. } ==> entry.is_file() == is_file,
        entry is File ==> entry.is_file(),
        entry is Directory ==> !entry.is_file(),
{
}

/// Law: the model of an entry leaves nothing out: the tree or the chunks
/// themselves, and of a directory every child in its place, by its name and by the
/// model of its entry.
pub proof fn law_entry_model_is_faithful<T, C>(entry: Entry<T, C>, i: int)
    ensures
        entry matches Entry::Unopened { is_file, tree } ==> entry.model() == (
        EntryModel::<T, C>::Unopened { is_file, tree }),
        entry matches Entry::File { chunks } ==> entry.model() == (EntryModel::<T, C>::File {
            chunks,
        }),
        entry matches Entry::Directory { children } ==> {
            &&& entry.model() is Directory
            &&& entry.model()->Directory_children.len() == children@.len()
            &&& 0 <= i < children@.len() ==> {
                &&& entry.model()->Directory_children[i].segment == children@[i].segment@
                &&& entry.model()->Directory_children[i].entry == children@[i].entry.model()
            }
        },
{
    if let Entry::Directory { children } = entry {
        lemma_directory_model(children);
    }
}

/// Law: the models of a listing and of an opened tree leave nothing out either.
pub proof fn law_listing_model_is_faithful<T, C>(
    children: Seq<Child<T, C>>,
    loaded: Loaded<T, C>,
    i: int,
)
    ensures
        children_model(children).len() == children.len(),
        0 <= i < children.len() ==> {
            &&& children_model(children)[i].segment == children[i].segment@
            &&& children_model(children)[i].entry == children[i].entry.model()
        },
        loaded matches Loaded::File { chunks, len } ==> loaded.model() == (
        LoadedModel::<T, C>::File { chunks, len }),
        loaded matches Loaded::Directory { children: held } ==> {
            &&& loaded.model() is Directory
            &&& loaded.model()->Directory_children.len() == held@.len()
            &&& 0 <= i < held@.len() ==> {
                &&& loaded.model()->Directory_children[i].segment == held@[i].segment@
                &&& loaded.model()->Directory_children[i].entry == held@[i].entry.model()
            }
        },
{
}

/// Law: a listing has the directories in the order in which they came, and then
/// the files in the order in which they came.
pub proof fn law_listing_is_directories_then_files<T, C>(children: Seq<ChildModel<T, C>>)
    ensures
        listing_order(children) == children.filter(
            |child: ChildModel<T, C>| !child.entry.is_file(),
        ) + children.filter(|child: ChildModel<T, C>| child.entry.is_file()),
{
    assert(directories::<T, C>() =~= (|child: ChildModel<T, C>| !child.entry.is_file()));
    assert(files::<T, C>() =~= (|child: ChildModel<T, C>| child.entry.is_file()));
}

} // verus!
