//! The listing of the addon directory: which of its files are addon files,
//! and in what order they are shown.

use vstd::prelude::*;
use vstd::seq_lib::{to_multiset_build, to_multiset_insert};
use vstd::string::{StrSliceExecFns, StringSliceAdditionalSpecFns};
use vstd::utf8::encode_utf8;

use crate::text::{same_text, text_of, texts_of};

verus! {

/// The extension of an addon file, with its dot.
pub open spec fn vpk_suffix() -> Seq<char> {
    seq!['.', 'v', 'p', 'k']
}

/// The name of an addon file without its extension: what stands before a
/// final `.vpk`, where something stands before it.
pub open spec fn stem_of(name: Seq<char>) -> Option<Seq<char>> {
    if name.len() > 4 && name.subrange(name.len() - 4, name.len() as int) == vpk_suffix() {
        Some(name.subrange(0, name.len() - 4))
    } else {
        None
    }
}

/// The name of an addon file without its extension, if `name` is the name of
/// an addon file.
pub fn vpk_stem(name: &str) -> (stem: Option<String>)
    ensures
        text_of(stem) == stem_of(name@),
{
    let n = name.unicode_len();
    if n <= 4 {
        return None;
    }
    proof {
        reveal_strlit(".vpk");
    }
    assert(".vpk"@ =~= vpk_suffix());
    if same_text(name.substring_char(n - 4, n), ".vpk") {
        Some(name.substring_char(0, n - 4).to_owned())
    } else {
        None
    }
}

/// What a directory holds under one name.
pub struct DirectoryEntry {
    /// The name of the entry, without the directory.
    pub name: String,
    /// Whether the entry is a directory itself.
    pub is_dir: bool,
}

/// The stems of the addon files among `entries`, in order: directories and
/// files that are no addon files are left out.
pub open spec fn stems_among(entries: Seq<DirectoryEntry>) -> Seq<Seq<char>>
    decreases entries.len(),
{
    if entries.len() == 0 {
        Seq::empty()
    } else {
        let before = stems_among(entries.drop_last());
        let last = entries.last();
        if !last.is_dir && stem_of(last.name@) is Some {
            before.push(stem_of(last.name@)->0)
        } else {
            before
        }
    }
}

/// The addon files of a directory, each without its extension, in the order
/// in which the directory was listed.
pub fn vpk_stems(entries: &[DirectoryEntry]) -> (stems: Vec<String>)
    ensures
        texts_of(stems@) == stems_among(entries@),
{
    let mut stems: Vec<String> = Vec::new();
    let mut i: usize = 0;
    assert(entries@.take(0) =~= Seq::<DirectoryEntry>::empty());
    assert(texts_of(stems@) =~= Seq::<Seq<char>>::empty());
    while i < entries.len()
        invariant
            i <= entries.len(),
            texts_of(stems@) == stems_among(entries@.take(i as int)),
        decreases entries.len() - i,
    {
        proof {
            assert(entries@.take(i + 1).drop_last() =~= entries@.take(i as int));
            assert(entries@.take(i + 1).last() == entries@[i as int]);
        }
        if !entries[i].is_dir {
            match vpk_stem(entries[i].name.as_str()) {
                Some(stem) => {
                    let ghost kept = stems@;
                    stems.push(stem);
                    assert(texts_of(stems@) =~= texts_of(kept).push(stem@));
                },
                None => {},
            }
        }
        i += 1;
    }
    assert(entries@.take(entries@.len() as int) =~= entries@);
    stems
}

/// Whether the bytes `a` stand before the bytes `b` in a dictionary, or are
/// `b`: at the first place where they differ `a` has the smaller byte, or `a`
/// ends there.
pub open spec fn bytes_le(a: Seq<u8>, b: Seq<u8>) -> bool
    decreases a.len(),
{
    if a.len() == 0 {
        true
    } else if b.len() == 0 {
        false
    } else if a[0] != b[0] {
        a[0] < b[0]
    } else {
        bytes_le(a.drop_first(), b.drop_first())
    }
}

/// Whether the name `a` is listed before the name `b`, or is `b`: names are
/// listed in the order of their bytes.
pub open spec fn name_le(a: Seq<char>, b: Seq<char>) -> bool {
    bytes_le(encode_utf8(a), encode_utf8(b))
}

/// Of two names one is listed before the other, or they are listed alike.
pub proof fn lemma_bytes_le_total(a: Seq<u8>, b: Seq<u8>)
    ensures
        bytes_le(a, b) || bytes_le(b, a),
    decreases a.len(),
{
    if a.len() > 0 && b.len() > 0 && a[0] == b[0] {
        lemma_bytes_le_total(a.drop_first(), b.drop_first());
    }
}

/// What is listed before a name is listed before every name after it.
pub proof fn lemma_bytes_le_transitive(a: Seq<u8>, b: Seq<u8>, c: Seq<u8>)
    requires
        bytes_le(a, b),
        bytes_le(b, c),
    ensures
        bytes_le(a, c),
    decreases a.len(),
{
    if a.len() > 0 && b.len() > 0 && c.len() > 0 && a[0] == b[0] && b[0] == c[0] {
        lemma_bytes_le_transitive(a.drop_first(), b.drop_first(), c.drop_first());
    }
}

/// Whether the name `a` is listed before the name `b`, or is `b`.
pub fn comes_before(a: &str, b: &str) -> (before: bool)
    ensures
        before == name_le(a@, b@),
{
    let x = a.as_bytes();
    let y = b.as_bytes();
    let mut i: usize = 0;
    assert(x@.skip(0) =~= x@ && y@.skip(0) =~= y@);
    while i < x.len() && i < y.len()
        invariant
            i <= x.len(),
            i <= y.len(),
            x@ == encode_utf8(a@),
            y@ == encode_utf8(b@),
            bytes_le(x@, y@) == bytes_le(x@.skip(i as int), y@.skip(i as int)),
        decreases x.len() - i,
    {
        proof {
            assert(x@.skip(i as int)[0] == x@[i as int]);
            assert(y@.skip(i as int)[0] == y@[i as int]);
            assert(x@.skip(i as int).drop_first() =~= x@.skip(i + 1));
            assert(y@.skip(i as int).drop_first() =~= y@.skip(i + 1));
        }
        if x[i] != y[i] {
            return x[i] < y[i];
        }
        i += 1;
    }
    i == x.len()
}

/// The value of an entry: its name, and whether it is a directory.
pub open spec fn entry_value(entry: DirectoryEntry) -> (Seq<char>, bool) {
    (entry.name@, entry.is_dir)
}

/// The values of a list of entries, in order.
pub open spec fn listed(entries: Seq<DirectoryEntry>) -> Seq<(Seq<char>, bool)> {
    entries.map_values(|e: DirectoryEntry| entry_value(e))
}

/// Each entry is listed before the next one, or is named like it.
pub open spec fn in_order(entries: Seq<(Seq<char>, bool)>) -> bool {
    forall|i: int|
        0 <= i < entries.len() - 1 ==> name_le((#[trigger] entries[i]).0, entries[i + 1].0)
}

/// In a listing that is in order, every entry is listed before all that
/// follow it.
pub proof fn lemma_in_order(entries: Seq<(Seq<char>, bool)>, i: int, j: int)
    requires
        in_order(entries),
        0 <= i <= j < entries.len(),
    ensures
        name_le(entries[i].0, entries[j].0),
    decreases j - i,
{
    if i == j {
        lemma_bytes_le_total(encode_utf8(entries[i].0), encode_utf8(entries[i].0));
    } else {
        lemma_in_order(entries, i, j - 1);
        assert(name_le(entries[j - 1].0, entries[j].0));
        lemma_bytes_le_transitive(
            encode_utf8(entries[i].0),
            encode_utf8(entries[j - 1].0),
            encode_utf8(entries[j].0),
        );
    }
}

impl Clone for DirectoryEntry {
    fn clone(&self) -> (res: Self)
        ensures
            entry_value(res) == entry_value(*self),
    {
        DirectoryEntry { name: self.name.clone(), is_dir: self.is_dir }
    }
}

/// The entries of a directory in the order of their names. Entries that are
/// named alike keep the order in which they came.
pub fn sort_by_name(entries: &[DirectoryEntry]) -> (sorted: Vec<DirectoryEntry>)
    ensures
        listed(sorted@).to_multiset() == listed(entries@).to_multiset(),
        in_order(listed(sorted@)),
{
    let mut sorted: Vec<DirectoryEntry> = Vec::new();
    let mut i: usize = 0;
    proof {
        assert(entries@.take(0) =~= Seq::<DirectoryEntry>::empty());
        assert(listed(sorted@) =~= listed(entries@.take(0)));
    }
    while i < entries.len()
        invariant
            i <= entries.len(),
            listed(sorted@).to_multiset() == listed(entries@.take(i as int)).to_multiset(),
            in_order(listed(sorted@)),
        decreases entries.len() - i,
    {
        let entry = entries[i].clone();
        let mut at: usize = 0;
        while at < sorted.len() && comes_before(sorted[at].name.as_str(), entry.name.as_str())
            invariant
                at <= sorted.len(),
                forall|k: int|
                    0 <= k < at ==> name_le((#[trigger] listed(sorted@)[k]).0, entry.name@),
            decreases sorted.len() - at,
        {
            at += 1;
        }
        let ghost before = listed(sorted@);
        let ghost value = entry_value(entry);
        proof {
            if at < sorted.len() {
                assert(!name_le(before[at as int].0, value.0));
                lemma_bytes_le_total(encode_utf8(before[at as int].0), encode_utf8(value.0));
            }
        }
        sorted.insert(at, entry);
        proof {
            let after = listed(sorted@);
            assert(after =~= before.insert(at as int, value));
            to_multiset_insert(before, at as int, value);
            assert(listed(entries@.take(i + 1)) =~= listed(entries@.take(i as int)).push(value));
            to_multiset_build(listed(entries@.take(i as int)), value);
            assert forall|k: int| 0 <= k < after.len() - 1 implies name_le(
                (#[trigger] after[k]).0,
                after[k + 1].0,
            ) by {
                if k + 1 < at {
                    assert(after[k] == before[k] && after[k + 1] == before[k + 1]);
                } else if k + 1 == at {
                    assert(after[k] == before[k]);
                } else if k == at {
                    assert(after[k + 1] == before[k]);
                } else {
                    assert(after[k] == before[k - 1] && after[k + 1] == before[k]);
                    assert(name_le(before[k - 1].0, before[k].0));
                }
            }
        }
        i += 1;
    }
    assert(entries@.take(entries@.len() as int) =~= entries@);
    sorted
}

} // verus!
