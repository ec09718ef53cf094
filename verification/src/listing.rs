//! Directory listings: the entries of a directory in the order in which the
//! editor shows them.

use vstd::prelude::*;
use vstd::seq_lib::*;
use vstd::slice::*;
use vstd::string::*;
use vstd::utf8::*;

verus! {

/// One entry of a directory.
#[derive(Clone, Debug)]
pub struct FileEntry {
    name: String,
    path: String,
    is_directory: bool,
    size: u64,
}

/// A file entry as contracts see it.
pub struct FileEntryView {
    pub name: Seq<char>,
    pub path: Seq<char>,
    pub is_directory: bool,
    pub size: u64,
}

impl View for FileEntry {
    type V = FileEntryView;

    closed spec fn view(&self) -> FileEntryView {
        FileEntryView {
            name: self.name@,
            path: self.path@,
            is_directory: self.is_directory,
            size: self.size,
        }
    }
}

impl FileEntry {
    /// An entry with the given name, full path, kind and size in bytes.
    pub fn new(name: String, path: String, is_directory: bool, size: u64) -> (entry: Self)
        ensures
            entry@ == (FileEntryView { name: name@, path: path@, is_directory, size }),
    {
        FileEntry { name, path, is_directory, size }
    }

    /// The name of the entry within its directory.
    pub fn name(&self) -> (name: &str)
        ensures
            name@ == self@.name,
    {
        self.name.as_str()
    }

    /// The full path of the entry.
    pub fn path(&self) -> (path: &str)
        ensures
            path@ == self@.path,
    {
        self.path.as_str()
    }

    /// Whether the entry is a directory.
    pub fn is_directory(&self) -> (is_directory: bool)
        ensures
            is_directory == self@.is_directory,
    {
        self.is_directory
    }

    /// The size of the entry in bytes.
    pub fn size(&self) -> (size: u64)
        ensures
            size == self@.size,
    {
        self.size
    }
}

/// What `str::to_lowercase` makes of a text: its lowercase form by the rules
/// of Unicode.
pub uninterp spec fn lowercase(text: Seq<char>) -> Seq<char>;

/// `str::to_lowercase`: the lowercase form of `text`.
#[verifier::external_body]
fn to_lowercase(text: &str) -> (folded: String)
    ensures
        folded@ == lowercase(text@),
{
    text.to_lowercase()
}

/// What an entry is ordered by.
pub struct SortKey {
    pub is_directory: bool,
    /// The bytes of the name in lowercase.
    pub name: Seq<u8>,
}

/// Whether `a` comes before `b` or equals it, byte by byte; a text comes
/// after each of its proper beginnings.
pub open spec fn lex_le(a: Seq<u8>, b: Seq<u8>) -> bool
    decreases a.len(),
{
    if a.len() == 0 {
        true
    } else if b.len() == 0 {
        false
    } else if a.first() != b.first() {
        a.first() < b.first()
    } else {
        lex_le(a.drop_first(), b.drop_first())
    }
}

/// Whether an entry with key `a` may stand before one with key `b`:
/// directories stand before files, and within each kind the names go up.
pub open spec fn key_le(a: SortKey, b: SortKey) -> bool {
    if a.is_directory != b.is_directory {
        a.is_directory
    } else {
        lex_le(a.name, b.name)
    }
}

/// Whether `keys` are in listing order.
pub open spec fn ordered(keys: Seq<SortKey>) -> bool {
    forall|i: int, j: int| 0 <= i < j < keys.len() ==> key_le(keys[i], keys[j])
}

/// Of two names, one comes before the other or equals it.
pub proof fn lemma_lex_le_total(a: Seq<u8>, b: Seq<u8>)
    ensures
        lex_le(a, b) || lex_le(b, a),
    decreases a.len(),
{
    if a.len() > 0 && b.len() > 0 && a.first() == b.first() {
        lemma_lex_le_total(a.drop_first(), b.drop_first());
    }
}

/// What comes before something that comes before a third comes before the
/// third.
pub proof fn lemma_lex_le_transitive(a: Seq<u8>, b: Seq<u8>, c: Seq<u8>)
    requires
        lex_le(a, b),
        lex_le(b, c),
    ensures
        lex_le(a, c),
    decreases a.len(),
{
    if a.len() > 0 && b.len() > 0 && c.len() > 0 && a.first() == b.first() && b.first()
        == c.first() {
        lemma_lex_le_transitive(a.drop_first(), b.drop_first(), c.drop_first());
    }
}

/// The listing order is total.
pub proof fn lemma_key_le_total(a: SortKey, b: SortKey)
    ensures
        key_le(a, b) || key_le(b, a),
{
    lemma_lex_le_total(a.name, b.name);
}

/// The listing order is transitive.
pub proof fn lemma_key_le_transitive(a: SortKey, b: SortKey, c: SortKey)
    requires
        key_le(a, b),
        key_le(b, c),
    ensures
        key_le(a, c),
{
    if a.is_directory == b.is_directory && b.is_directory == c.is_directory {
        lemma_lex_le_transitive(a.name, b.name, c.name);
    }
}

/// Whether `a` comes before `b` or equals it, byte by byte.
fn bytes_le(a: &[u8], b: &[u8]) -> (le: bool)
    ensures
        le == lex_le(a@, b@),
{
    let mut i: usize = 0;
    proof {
        assert(a@.skip(0) =~= a@);
        assert(b@.skip(0) =~= b@);
    }
    loop
        invariant
            i <= a.len(),
            i <= b.len(),
            lex_le(a@, b@) == lex_le(a@.skip(i as int), b@.skip(i as int)),
        decreases a.len() - i,
    {
        let ghost rest_a = a@.skip(i as int);
        let ghost rest_b = b@.skip(i as int);
        if i == a.len() {
            return true;
        }
        if i == b.len() {
            return false;
        }
        proof {
            assert(rest_a.first() == a@[i as int]);
            assert(rest_b.first() == b@[i as int]);
            assert(rest_a.drop_first() =~= a@.skip(i + 1));
            assert(rest_b.drop_first() =~= b@.skip(i + 1));
        }
        if a[i] != b[i] {
            return a[i] < b[i];
        }
        i += 1;
    }
}

/// An entry together with the lowercase form of its name.
#[derive(Debug)]
pub struct KeyedEntry {
    pub folded_name: String,
    pub entry: FileEntry,
}

impl KeyedEntry {
    /// The key this entry is ordered by.
    pub open spec fn key(&self) -> SortKey {
        SortKey { is_directory: self.entry@.is_directory, name: encode_utf8(self.folded_name@) }
    }
}

/// The keys of `items`, in their order.
pub open spec fn keys_of(items: Seq<KeyedEntry>) -> Seq<SortKey> {
    Seq::new(items.len(), |i: int| items[i].key())
}

/// The entries of `items`, in their order.
pub open spec fn entries_of(items: Seq<KeyedEntry>) -> Seq<FileEntry> {
    Seq::new(items.len(), |i: int| items[i].entry)
}

/// The key an entry is ordered by: its kind and its name in lowercase.
pub open spec fn entry_key(entry: FileEntry) -> SortKey {
    SortKey { is_directory: entry@.is_directory, name: encode_utf8(lowercase(entry@.name)) }
}

/// The keys of `entries`, in their order.
pub open spec fn entry_keys(entries: Seq<FileEntry>) -> Seq<SortKey> {
    Seq::new(entries.len(), |i: int| entry_key(entries[i]))
}

/// Whether `a` may stand before `b`.
fn may_precede(a: &KeyedEntry, b: &KeyedEntry) -> (le: bool)
    ensures
        le == key_le(a.key(), b.key()),
{
    if a.entry.is_directory != b.entry.is_directory {
        a.entry.is_directory
    } else {
        bytes_le(a.folded_name.as_str().as_bytes(), b.folded_name.as_str().as_bytes())
    }
}

/// Whether each of `high` may stand after each of `low`.
spec fn all_le(low: Seq<KeyedEntry>, high: Seq<KeyedEntry>) -> bool {
    forall|i: int, j: int|
        0 <= i < low.len() && 0 <= j < high.len() ==> key_le(
            #[trigger] low[i].key(),
            #[trigger] high[j].key(),
        )
}

/// Whether `items` are in listing order from the back to the front.
spec fn descending(items: Seq<KeyedEntry>) -> bool {
    forall|i: int, j: int|
        0 <= i < j < items.len() ==> key_le(#[trigger] items[j].key(), #[trigger] items[i].key())
}

/// Whether `items` are in listing order.
spec fn ascending(items: Seq<KeyedEntry>) -> bool {
    forall|i: int, j: int|
        0 <= i < j < items.len() ==> key_le(#[trigger] items[i].key(), #[trigger] items[j].key())
}

proof fn lemma_ascending_is_ordered(items: Seq<KeyedEntry>)
    ensures
        ascending(items) <==> ordered(keys_of(items)),
{
    if ascending(items) {
        assert forall|i: int, j: int| 0 <= i < j < keys_of(items).len() implies key_le(
            keys_of(items)[i],
            keys_of(items)[j],
        ) by {
            assert(key_le(items[i].key(), items[j].key()));
        }
    }
    if ordered(keys_of(items)) {
        assert forall|i: int, j: int| 0 <= i < j < items.len() implies key_le(
            #[trigger] items[i].key(),
            #[trigger] items[j].key(),
        ) by {
            assert(key_le(keys_of(items)[i], keys_of(items)[j]));
        }
    }
}

/// Moves the last item of `from` to the end of `to`.
fn move_last(from: &mut Vec<KeyedEntry>, to: &mut Vec<KeyedEntry>)
    requires
        old(from)@.len() > 0,
    ensures
        final(from)@ == old(from)@.drop_last(),
        final(to)@ == old(to)@.push(old(from)@.last()),
        final(from)@.to_multiset().add(final(to)@.to_multiset()) == old(from)@.to_multiset().add(
            old(to)@.to_multiset(),
        ),
{
    broadcast use group_to_multiset_ensures;

    let ghost before = from@;
    match from.pop() {
        Some(item) => {
            proof {
                assert(from@ =~= before.drop_last());
                assert(before =~= from@.push(item));
                assert(from@.to_multiset().add(to@.push(item).to_multiset())
                    =~= before.to_multiset().add(to@.to_multiset()));
            }
            to.push(item);
        },
        None => {},
    }
}

/// Merges two runs that are in listing order into one.
fn merge(left: Vec<KeyedEntry>, right: Vec<KeyedEntry>) -> (merged: Vec<KeyedEntry>)
    requires
        ascending(left@),
        ascending(right@),
    ensures
        ascending(merged@),
        merged@.to_multiset() == left@.to_multiset().add(right@.to_multiset()),
{
    broadcast use group_to_multiset_ensures;

    let ghost total = left@.to_multiset().add(right@.to_multiset());
    let mut left = left;
    let mut right = right;
    let mut stack: Vec<KeyedEntry> = Vec::new();
    assert(left@.to_multiset().add(right@.to_multiset()).add(stack@.to_multiset()) =~= total);
    while left.len() > 0 || right.len() > 0
        invariant
            ascending(left@),
            ascending(right@),
            descending(stack@),
            all_le(left@, stack@),
            all_le(right@, stack@),
            left@.to_multiset().add(right@.to_multiset()).add(stack@.to_multiset()) == total,
        decreases left.len() + right.len(),
    {
        let ghost old_left = left@;
        let ghost old_right = right@;
        let ghost old_stack = stack@;
        let take_right = if left.len() == 0 {
            true
        } else if right.len() == 0 {
            false
        } else {
            may_precede(&left[left.len() - 1], &right[right.len() - 1])
        };
        if take_right {
            let ghost item = right@.last();
            proof {
                assert forall|i: int| 0 <= i < old_left.len() implies key_le(
                    #[trigger] old_left[i].key(),
                    item.key(),
                ) by {
                    if i < old_left.len() - 1 {
                        assert(key_le(old_left[i].key(), old_left[old_left.len() - 1].key()));
                    } else {
                        lemma_key_le_total(old_left[i].key(), old_left[i].key());
                    }
                    lemma_key_le_transitive(
                        old_left[i].key(),
                        old_left.last().key(),
                        item.key(),
                    );
                }
                assert forall|i: int| 0 <= i < old_right.len() - 1 implies key_le(
                    #[trigger] old_right[i].key(),
                    item.key(),
                ) by {
                    assert(key_le(old_right[i].key(), old_right[old_right.len() - 1].key()));
                }
            }
            move_last(&mut right, &mut stack);
            proof {
                assert(left@.to_multiset().add(right@.to_multiset()).add(stack@.to_multiset())
                    =~= old_left.to_multiset().add(
                    right@.to_multiset().add(stack@.to_multiset()),
                ));
                assert(old_left.to_multiset().add(
                    old_right.to_multiset().add(old_stack.to_multiset()),
                ) =~= total);
            }
        } else {
            let ghost item = left@.last();
            proof {
                if old_right.len() > 0 {
                    lemma_key_le_total(old_left.last().key(), old_right.last().key());
                }
                assert forall|i: int| 0 <= i < old_right.len() implies key_le(
                    #[trigger] old_right[i].key(),
                    item.key(),
                ) by {
                    if i < old_right.len() - 1 {
                        assert(key_le(old_right[i].key(), old_right[old_right.len() - 1].key()));
                    } else {
                        lemma_key_le_total(old_right[i].key(), old_right[i].key());
                    }
                    lemma_key_le_transitive(
                        old_right[i].key(),
                        old_right.last().key(),
                        item.key(),
                    );
                }
                assert forall|i: int| 0 <= i < old_left.len() - 1 implies key_le(
                    #[trigger] old_left[i].key(),
                    item.key(),
                ) by {
                    assert(key_le(old_left[i].key(), old_left[old_left.len() - 1].key()));
                }
            }
            move_last(&mut left, &mut stack);
            proof {
                assert(left@.to_multiset().add(right@.to_multiset()).add(stack@.to_multiset())
                    =~= old_right.to_multiset().add(
                    left@.to_multiset().add(stack@.to_multiset()),
                ));
                assert(old_right.to_multiset().add(
                    old_left.to_multiset().add(old_stack.to_multiset()),
                ) =~= total);
            }
        }
    }
    assert(stack@.to_multiset() =~= total);
    let mut merged: Vec<KeyedEntry> = Vec::new();
    assert(stack@.to_multiset().add(merged@.to_multiset()) =~= total);
    while stack.len() > 0
        invariant
            descending(stack@),
            ascending(merged@),
            all_le(merged@, stack@),
            stack@.to_multiset().add(merged@.to_multiset()) == total,
        decreases stack.len(),
    {
        let ghost old_stack = stack@;
        let ghost old_merged = merged@;
        move_last(&mut stack, &mut merged);
        proof {
            assert forall|i: int, j: int|
                0 <= i < merged@.len() && 0 <= j < stack@.len() implies key_le(
                #[trigger] merged@[i].key(),
                #[trigger] stack@[j].key(),
            ) by {
                if i == old_merged.len() {
                    assert(key_le(old_stack[old_stack.len() - 1].key(), old_stack[j].key()));
                } else {
                    assert(key_le(old_merged[i].key(), old_stack[j].key()));
                }
            }
            assert forall|i: int, j: int| 0 <= i < j < merged@.len() implies key_le(
                #[trigger] merged@[i].key(),
                #[trigger] merged@[j].key(),
            ) by {
                if j == old_merged.len() {
                    assert(key_le(old_merged[i].key(), old_stack[old_stack.len() - 1].key()));
                } else {
                    assert(key_le(old_merged[i].key(), old_merged[j].key()));
                }
            }
        }
    }
    assert(merged@.to_multiset() =~= total);
    merged
}

/// Puts `items` into listing order: directories first, then files, each kind
/// by the bytes of the lowercase names. The result holds the same items, each
/// as often as before; which of two items with equal keys comes first is
/// open.
pub fn sort_keyed(items: Vec<KeyedEntry>) -> (sorted: Vec<KeyedEntry>)
    ensures
        ordered(keys_of(sorted@)),
        sorted@.to_multiset() == items@.to_multiset(),
    decreases items@.len(),
{
    let ghost all = items@;
    let mut left = items;
    if left.len() <= 1 {
        proof {
            lemma_ascending_is_ordered(left@);
        }
        return left;
    }
    let middle = left.len() / 2;
    let right = left.split_off(middle);
    proof {
        assert(left@ + right@ =~= all);
        lemma_multiset_commutative(left@, right@);
    }
    let left = sort_keyed(left);
    let right = sort_keyed(right);
    proof {
        lemma_ascending_is_ordered(left@);
        lemma_ascending_is_ordered(right@);
    }
    let merged = merge(left, right);
    proof {
        lemma_ascending_is_ordered(merged@);
    }
    merged
}

/// Two runs that hold the same items hold the same entries.
proof fn lemma_same_items_same_entries(a: Seq<KeyedEntry>, b: Seq<KeyedEntry>)
    requires
        a.to_multiset() == b.to_multiset(),
    ensures
        entries_of(a).to_multiset() == entries_of(b).to_multiset(),
    decreases a.len(),
{
    broadcast use group_to_multiset_ensures;

    a.to_multiset_ensures();
    b.to_multiset_ensures();
    if a.len() == 0 {
        assert(b.len() == 0);
        assert(entries_of(a) =~= entries_of(b));
    } else {
        let item = a.last();
        assert(a[a.len() - 1] == item);
        assert(a.contains(item));
        assert(b.to_multiset().count(item) > 0);
        assert(b.contains(item));
        let j = choose|j: int| 0 <= j < b.len() && b[j] == item;
        let shorter_a = a.drop_last();
        let shorter_b = b.remove(j);
        assert(shorter_a =~= a.remove(a.len() - 1));
        to_multiset_remove(a, a.len() - 1);
        to_multiset_remove(b, j);
        assert(shorter_a.to_multiset() =~= shorter_b.to_multiset());
        lemma_same_items_same_entries(shorter_a, shorter_b);
        assert(entries_of(a) =~= entries_of(shorter_a).push(item.entry));
        to_multiset_build(entries_of(shorter_a), item.entry);
        assert(entries_of(b).remove(j) =~= entries_of(shorter_b));
        assert(entries_of(b)[j] == item.entry);
        to_multiset_remove(entries_of(b), j);
        entries_of(b).to_multiset_ensures();
        assert(entries_of(b).contains(item.entry));
        assert(entries_of(b).to_multiset() =~= entries_of(shorter_b).to_multiset().insert(
            item.entry,
        ));
    }
}

/// The items of `items` in the opposite order.
fn reversed(items: Vec<KeyedEntry>) -> (turned: Vec<KeyedEntry>)
    ensures
        turned@ == items@.reverse(),
{
    let ghost all = items@;
    let mut items = items;
    let mut turned: Vec<KeyedEntry> = Vec::new();
    while items.len() > 0
        invariant
            items@ == all.take(items@.len() as int),
            turned@.len() + items@.len() == all.len(),
            forall|k: int| 0 <= k < turned@.len() ==> turned@[k] == all[all.len() - 1 - k],
        decreases items.len(),
    {
        let ghost before = items@;
        move_last(&mut items, &mut turned);
        assert(items@ =~= all.take(items@.len() as int));
    }
    assert(turned@ =~= all.reverse());
    turned
}

/// The contents of a directory, its entries in listing order.
#[derive(Debug)]
pub struct DirectoryContents {
    entries: Vec<FileEntry>,
    current_path: String,
}

/// Directory contents as contracts see them.
pub struct DirectoryContentsView {
    pub entries: Seq<FileEntry>,
    pub current_path: Seq<char>,
}

impl View for DirectoryContents {
    type V = DirectoryContentsView;

    closed spec fn view(&self) -> DirectoryContentsView {
        DirectoryContentsView { entries: self.entries@, current_path: self.current_path@ }
    }
}

impl DirectoryContents {
    /// The contents of the directory `current_path`, made of `entries` in any
    /// order. The listing holds the same entries, directories first, then
    /// files, each kind by the bytes of the lowercase names.
    pub fn new(entries: Vec<FileEntry>, current_path: String) -> (contents: Self)
        ensures
            contents@.current_path == current_path@,
            contents@.entries.to_multiset() == entries@.to_multiset(),
            ordered(entry_keys(contents@.entries)),
    {
        broadcast use group_to_multiset_ensures;

        let ghost given = entries@;
        let mut entries = entries;
        let mut keyed: Vec<KeyedEntry> = Vec::new();
        assert(entries_of(keyed@) =~= Seq::<FileEntry>::empty());
        assert(entries@.to_multiset().add(entries_of(keyed@).to_multiset()) =~= given.to_multiset());
        while entries.len() > 0
            invariant
                entries@.to_multiset().add(entries_of(keyed@).to_multiset())
                    == given.to_multiset(),
                forall|k: int|
                    0 <= k < keyed@.len() ==> (#[trigger] keyed@[k]).key() == entry_key(
                        keyed@[k].entry,
                    ),
            decreases entries.len(),
        {
            let ghost before = entries@;
            let ghost keyed_before = keyed@;
            match entries.pop() {
                Some(entry) => {
                    let folded_name = to_lowercase(entry.name.as_str());
                    keyed.push(KeyedEntry { folded_name, entry });
                    proof {
                        assert(before =~= entries@.push(entry));
                        assert(entries_of(keyed@) =~= entries_of(keyed_before).push(entry));
                        to_multiset_build(entries@, entry);
                        to_multiset_build(entries_of(keyed_before), entry);
                        assert(entries@.to_multiset().add(entries_of(keyed@).to_multiset())
                            =~= before.to_multiset().add(entries_of(keyed_before).to_multiset()));
                    }
                },
                None => {},
            }
        }
        assert(entries@.to_multiset() =~= Seq::<FileEntry>::empty().to_multiset());
        assert(entries_of(keyed@).to_multiset() =~= given.to_multiset());
        let ghost keyed_all = keyed@;
        let sorted = sort_keyed(keyed);
        let ghost sorted_all = sorted@;
        proof {
            lemma_same_items_same_entries(sorted_all, keyed_all);
            assert forall|k: int| 0 <= k < sorted_all.len() implies (
            #[trigger] sorted_all[k]).key() == entry_key(sorted_all[k].entry) by {
                sorted_all.to_multiset_ensures();
                keyed_all.to_multiset_ensures();
                assert(sorted_all.contains(sorted_all[k]));
                assert(keyed_all.to_multiset().count(sorted_all[k]) > 0);
                assert(keyed_all.contains(sorted_all[k]));
                let j = choose|j: int| 0 <= j < keyed_all.len() && keyed_all[j] == sorted_all[k];
                assert(keyed_all[j].key() == entry_key(keyed_all[j].entry));
            }
        }
        let mut stack = reversed(sorted);
        let mut listed: Vec<FileEntry> = Vec::new();
        while stack.len() > 0
            invariant
                stack@.len() + listed@.len() == sorted_all.len(),
                stack@ == sorted_all.reverse().take(stack@.len() as int),
                listed@ == entries_of(sorted_all).take(listed@.len() as int),
            decreases stack.len(),
        {
            let ghost before = listed@;
            match stack.pop() {
                Some(item) => {
                    listed.push(item.entry);
                    proof {
                        assert(item == sorted_all[before.len() as int]);
                        assert(stack@ =~= sorted_all.reverse().take(stack@.len() as int));
                        assert(listed@ =~= entries_of(sorted_all).take(listed@.len() as int));
                    }
                },
                None => {},
            }
        }
        proof {
            assert(listed@ =~= entries_of(sorted_all));
            assert(entry_keys(listed@) =~= keys_of(sorted_all));
        }
        DirectoryContents { entries: listed, current_path }
    }

    /// The entries, in listing order.
    pub fn entries(&self) -> (entries: &Vec<FileEntry>)
        ensures
            entries@ == self@.entries,
    {
        &self.entries
    }

    /// The path of the directory.
    pub fn current_path(&self) -> (path: &str)
        ensures
            path@ == self@.current_path,
    {
        self.current_path.as_str()
    }
}

} // verus!
