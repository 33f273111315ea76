//! The manifest of a transfer: files and folders, spelled out as files with
//! relative names.
//!
//! The program around it reads the folders. A [`Walk`] says which one to read
//! next and takes what was found there.

use vstd::prelude::*;

use crate::laws::transfer::lemma_folder_adds;
use crate::order::{byte_key, bytes_at_most, stable_sort, stable_sorted, Keyed};
use crate::protocol::{entries, EntryView, FileEntry};
use crate::text::same;

verus! {

/// What stands at a path.
#[derive(Debug, Clone, Copy, PartialEq, Eq, Structural)]
pub enum Kind {
    File { size: u64 },
    Folder,
    /// Symlinks, special files and what could not be looked at: left out.
    Other,
}

/// Something found in a folder. `key` is the raw name that the system sorts by,
/// `name` the text of it; `source` is how the program finds it again.
#[derive(Debug)]
pub struct Found<S> {
    pub key: Vec<u8>,
    pub name: String,
    pub kind: Kind,
    pub source: S,
}

impl<S> Keyed for Found<S> {
    open spec fn key(&self) -> Seq<int> {
        byte_key(self.key@)
    }

    fn at_most(&self, other: &Self) -> (r: bool) {
        bytes_at_most(&self.key, &other.key)
    }
}

/// Something that still has to be spelled out, under its relative name.
#[derive(Debug)]
pub struct Pending<S> {
    pub rel: String,
    pub kind: Kind,
    pub source: S,
}

/// The same, as contracts see it.
pub struct PendingView<S> {
    pub rel: Seq<char>,
    pub kind: Kind,
    pub source: S,
}

impl<S> View for Pending<S> {
    type V = PendingView<S>;

    open spec fn view(&self) -> PendingView<S> {
        PendingView { rel: self.rel@, kind: self.kind, source: self.source }
    }
}

/// A file of this name is in the manifest.
pub open spec fn has_name<S>(out: Seq<(FileEntry, S)>, rel: Seq<char>) -> bool {
    exists|i: int| 0 <= i < out.len() && (#[trigger] out[i]).0.rel_path@ == rel
}

/// No two files of the manifest have the same name.
pub open spec fn names_differ<S>(out: Seq<(FileEntry, S)>) -> bool {
    forall|i: int, j: int|
        0 <= i < j < out.len() ==> (#[trigger] out[i]).0.rel_path@ != (
        #[trigger] out[j]).0.rel_path@
}

/// Adds a file to the manifest, unless one of its name is in it; then the name
/// comes back and the manifest stays as it was.
pub fn push_unique<S>(
    out: &mut Vec<(FileEntry, S)>,
    rel_path: String,
    size: u64,
    source: S,
) -> (r: Result<(), String>)
    ensures
        has_name(old(out)@, rel_path@) ==> r == Err::<(), String>(rel_path) && final(out)@ == old(
            out)@,
        !has_name(old(out)@, rel_path@) ==> r is Ok && final(out)@ == old(out)@.push(
            (FileEntry { rel_path, size }, source),
        ),
        names_differ(old(out)@) ==> names_differ(final(out)@),
{
    let mut i: usize = 0;
    while i < out.len()
        invariant
            i <= out@.len(),
            *out == *old(out),
            forall|j: int| 0 <= j < i ==> (#[trigger] out@[j]).0.rel_path@ != rel_path@,
        decreases out@.len() - i,
    {
        if same(out[i].0.rel_path.as_str(), rel_path.as_str()) {
            return Err(rel_path);
        }
        i = i + 1;
    }
    out.push((FileEntry { rel_path, size }, source));
    Ok(())
}

/// The words for two files of one name.
pub fn duplicate_message(rel_path: &str) -> (r: String)
    ensures
        r@ == "duplicate name in selection: "@ + rel_path@,
{
    let mut s = "duplicate name in selection: ".to_string();
    s.append(rel_path);
    s
}

/// The bytes of all files of a manifest together.
pub open spec fn manifest_bytes(files: Seq<EntryView>) -> int
    decreases files.len(),
{
    if files.len() == 0 {
        0
    } else {
        manifest_bytes(files.drop_last()) + files.last().size
    }
}

/// Part of a manifest has no more bytes than all of it.
pub proof fn lemma_manifest_prefix(files: Seq<EntryView>, n: int)
    requires
        0 <= n <= files.len(),
    ensures
        0 <= manifest_bytes(files.take(n)) <= manifest_bytes(files),
    decreases files.len(),
{
    if n < files.len() {
        lemma_manifest_prefix(files.drop_last(), n);
        assert(files.drop_last().take(n) =~= files.take(n));
    } else {
        assert(files.take(n) =~= files);
        if n > 0 {
            lemma_manifest_prefix(files.drop_last(), n - 1);
        }
    }
}

/// The bytes of all files together, where they are few enough to count.
pub fn manifest_size(files: &Vec<FileEntry>) -> (r: Option<u64>)
    ensures
        r is Some <==> manifest_bytes(entries(files@)) <= u64::MAX,
        r matches Some(n) ==> n == manifest_bytes(entries(files@)),
{
    let ghost all = entries(files@);
    let mut total: u64 = 0;
    let mut i: usize = 0;
    assert(all.take(0) =~= Seq::<EntryView>::empty());
    while i < files.len()
        invariant
            i <= files@.len(),
            all == entries(files@),
            total == manifest_bytes(all.take(i as int)),
        decreases files@.len() - i,
    {
        proof {
            lemma_manifest_prefix(all, i + 1);
            assert(all.take(i + 1).drop_last() =~= all.take(i as int));
        }
        match total.checked_add(files[i].size) {
            Some(n) => {
                total = n;
            },
            None => {
                return None;
            },
        }
        i = i + 1;
    }
    assert(all.take(all.len() as int) =~= all);
    Some(total)
}

/// A manifest in the making.
#[derive(Debug)]
pub struct Walk<S> {
    pub out: Vec<(FileEntry, S)>,
    /// What is still to be spelled out; the last of it comes first.
    pub stack: Vec<Pending<S>>,
}

/// What a step of the walk came to.
#[derive(Debug)]
pub enum WalkStep<S> {
    /// Nothing is left.
    Finished,
    /// A file was added, or something was left out.
    Went,
    /// Read this folder and hand over what is in it.
    Read { rel: String, source: S },
    /// A file of this name is in the manifest already: stop.
    Duplicate(String),
}

/// What is in a folder, sorted by raw name, under relative names.
pub open spec fn contents<S>(rel: Seq<char>, found: Seq<Found<S>>) -> Seq<PendingView<S>> {
    stable_sorted(found).map_values(
        |f: Found<S>| PendingView { rel: rel + "/"@ + f.name@, kind: f.kind, source: f.source },
    )
}

/// What is to be spelled out, as contracts see it.
pub open spec fn waiting<S>(stack: Seq<Pending<S>>) -> Seq<PendingView<S>> {
    stack.map_values(|p: Pending<S>| p@)
}

impl<S> Walk<S> {
    /// A manifest with nothing in it.
    pub fn new() -> (r: Walk<S>)
        ensures
            r.out@ == Seq::<(FileEntry, S)>::empty(),
            r.stack@ == Seq::<Pending<S>>::empty(),
            names_differ(r.out@),
    {
        Walk { out: Vec::new(), stack: Vec::new() }
    }

    /// Takes in something the user picked, under its own name.
    pub fn add(&mut self, name: String, kind: Kind, source: S)
        ensures
            final(self).out == old(self).out,
            final(self).stack@ == old(self).stack@.push(Pending { rel: name, kind, source }),
    {
        self.stack.push(Pending { rel: name, kind, source });
    }

    /// The manifest that was made; one with no file in it is refused.
    pub fn finish(self) -> (r: Result<Vec<(FileEntry, S)>, String>)
        ensures
            self.out@.len() == 0 ==> (r matches Err(e) && e@ == "nothing to send"@),
            self.out@.len() > 0 ==> r == Ok::<_, String>(self.out),
    {
        if self.out.len() == 0 {
            Err("nothing to send".to_string())
        } else {
            Ok(self.out)
        }
    }

    /// Spells out the next thing.
    pub fn next(&mut self) -> (r: WalkStep<S>)
        ensures
            names_differ(old(self).out@) ==> names_differ(final(self).out@),
            old(self).stack@.len() == 0 ==> r is Finished && final(self).out@ == old(self).out@
                && final(self).stack@ == old(self).stack@,
            old(self).stack@.len() > 0 ==> {
                let p = old(self).stack@.last();
                &&& final(self).stack@ == old(self).stack@.drop_last()
                &&& match p.kind {
                    Kind::File { size } => if has_name(old(self).out@, p.rel@) {
                        r == WalkStep::<S>::Duplicate(p.rel) && final(self).out@ == old(self).out@
                    } else {
                        r is Went && final(self).out@ == old(self).out@.push(
                            (FileEntry { rel_path: p.rel, size }, p.source),
                        )
                    },
                    Kind::Folder => r == (WalkStep::Read { rel: p.rel, source: p.source })
                        && final(self).out@ == old(self).out@,
                    Kind::Other => r is Went && final(self).out@ == old(self).out@,
                }
            },
            r is Went ==> forall|tree: spec_fn(S) -> Seq<Found<S>>| #[trigger]
                walked(tree, *old(self), *final(self)),
    {
        match self.stack.pop() {
            None => WalkStep::Finished,
            Some(p) => match p.kind {
                Kind::File { size } => match push_unique(&mut self.out, p.rel, size, p.source) {
                    Ok(()) => WalkStep::Went,
                    Err(name) => WalkStep::Duplicate(name),
                },
                Kind::Folder => WalkStep::Read { rel: p.rel, source: p.source },
                Kind::Other => WalkStep::Went,
            },
        }
    }

    /// Takes in what is in a folder, so that it is spelled out next, in the order
    /// of the raw names, and before everything that was waiting.
    pub fn entered(&mut self, rel: &str, found: Vec<Found<S>>)
        ensures
            final(self).out == old(self).out,
            waiting(final(self).stack@) == waiting(old(self).stack@) + contents(
                rel@,
                found@,
            ).reverse(),
            final(self).stack@.len() == old(self).stack@.len() + found@.len(),
            forall|i: int|
                0 <= i < found@.len() ==> exists|k: int|
                    old(self).stack@.len() <= k < final(self).stack@.len()
                        && (#[trigger] final(self).stack@[k]).rel@ == rel@ + "/"@
                        + (#[trigger] found@[i]).name@ && final(self).stack@[k].kind
                        == found@[i].kind && final(self).stack@[k].source == found@[i].source,
            forall|k: int|
                old(self).stack@.len() <= k < final(self).stack@.len() ==> exists|i: int|
                    0 <= i < found@.len() && (#[trigger] final(self).stack@[k]).rel@ == rel@ + "/"@
                        + (#[trigger] found@[i]).name@ && final(self).stack@[k].kind
                        == found@[i].kind && final(self).stack@[k].source == found@[i].source,
    {
        let mut sorted = stable_sort(found);
        let ghost all = sorted@;
        let ghost target = contents(rel@, found@);
        let ghost start = waiting(self.stack@);
        assert(all.skip(all.len() as int) =~= Seq::<Found<S>>::empty());
        assert(waiting(self.stack@) =~= start + target.skip(all.len() as int).reverse());
        loop
            invariant
                sorted@ == all.take(sorted@.len() as int),
                sorted@.len() <= all.len(),
                self.out == old(self).out,
                all == stable_sorted(found@),
                target == contents(rel@, found@),
                start == waiting(old(self).stack@),
                waiting(self.stack@) == start + target.skip(sorted@.len() as int).reverse(),
            ensures
                sorted@.len() == 0,
            decreases sorted@.len(),
        {
            match sorted.pop() {
                None => {
                    break;
                },
                Some(f) => {
                    let ghost n = sorted@.len() as int;
                    let ghost before = self.stack@;
                    assert(f == all[n]);
                    let mut name = rel.to_string();
                    name.append("/");
                    name.append(f.name.as_str());
                    let ghost p = Pending { rel: name, kind: f.kind, source: f.source };
                    self.stack.push(Pending { rel: name, kind: f.kind, source: f.source });
                    assert(waiting(self.stack@) =~= waiting(before).push(p@));
                    assert(p@ == target[n]);
                    assert(target.skip(n).reverse() =~= target.skip(n + 1).reverse().push(
                        target[n],
                    ));
                    assert(start + target.skip(n + 1).reverse().push(target[n]) =~= (start
                        + target.skip(n + 1).reverse()).push(target[n]));
                },
            }
        }
        assert(target.skip(0) =~= target);
        proof {
            lemma_folder_adds(old(self).stack@, self.stack@, rel@, found@);
        }
    }
}

// ---- what a walk comes to ----

/// A file of a manifest, as contracts see it.
pub struct Listed<S> {
    pub rel: Seq<char>,
    pub size: u64,
    pub source: S,
}

/// A manifest, as contracts see it.
pub open spec fn listed<S>(out: Seq<(FileEntry, S)>) -> Seq<Listed<S>> {
    out.map_values(|f: (FileEntry, S)| Listed { rel: f.0.rel_path@, size: f.0.size, source: f.1 })
}

/// What something spells out, down to `depth` folders: a file itself, and of a
/// folder everything in it, in the order of the raw names. `tree` tells what is in a
/// folder.
pub open spec fn spelled<S>(
    tree: spec_fn(S) -> Seq<Found<S>>,
    p: PendingView<S>,
    depth: nat,
) -> Seq<Listed<S>>
    decreases depth, 0nat,
{
    match p.kind {
        Kind::File { size } => seq![Listed { rel: p.rel, size, source: p.source }],
        Kind::Folder => if depth == 0 {
            Seq::empty()
        } else {
            spelled_all(tree, contents(p.rel, tree(p.source)), (depth - 1) as nat)
        },
        Kind::Other => Seq::empty(),
    }
}

/// What several things spell out, one after the other.
pub open spec fn spelled_all<S>(
    tree: spec_fn(S) -> Seq<Found<S>>,
    list: Seq<PendingView<S>>,
    depth: nat,
) -> Seq<Listed<S>>
    decreases depth, list.len() + 1,
{
    if list.len() == 0 {
        Seq::empty()
    } else {
        spelled_all(tree, list.drop_last(), depth) + spelled(tree, list.last(), depth)
    }
}

/// No folders lie deeper than `depth`.
pub open spec fn shallow<S>(
    tree: spec_fn(S) -> Seq<Found<S>>,
    p: PendingView<S>,
    depth: nat,
) -> bool
    decreases depth,
{
    p.kind is Folder ==> {
        let inside = contents(p.rel, tree(p.source));
        &&& depth > 0
        &&& forall|i: int|
            0 <= i < inside.len() ==> shallow(tree, #[trigger] inside[i], (depth - 1) as nat)
    }
}

/// One more level makes no difference to what is shallow.
proof fn lemma_deeper<S>(tree: spec_fn(S) -> Seq<Found<S>>, p: PendingView<S>, depth: nat)
    requires
        shallow(tree, p, depth),
    ensures
        shallow(tree, p, depth + 1),
        spelled(tree, p, depth + 1) == spelled(tree, p, depth),
    decreases depth, 0nat,
{
    if p.kind is Folder {
        let inside = contents(p.rel, tree(p.source));
        let d = (depth - 1) as nat;
        assert forall|i: int| 0 <= i < inside.len() implies shallow(
            tree,
            #[trigger] inside[i],
            depth,
        ) by {
            lemma_deeper(tree, inside[i], d);
        }
        lemma_all_deeper(tree, inside, d);
        assert((depth + 1 - 1) as nat == depth);
    }
}

proof fn lemma_all_deeper<S>(
    tree: spec_fn(S) -> Seq<Found<S>>,
    list: Seq<PendingView<S>>,
    depth: nat,
)
    requires
        forall|i: int| 0 <= i < list.len() ==> shallow(tree, #[trigger] list[i], depth),
    ensures
        spelled_all(tree, list, depth + 1) == spelled_all(tree, list, depth),
    decreases depth, list.len() + 1,
{
    if list.len() > 0 {
        assert(shallow(tree, list[list.len() - 1], depth));
        lemma_deeper(tree, list.last(), depth);
        assert forall|i: int| 0 <= i < list.drop_last().len() implies shallow(
            tree,
            #[trigger] list.drop_last()[i],
            depth,
        ) by {
            assert(list.drop_last()[i] == list[i]);
        }
        lemma_all_deeper(tree, list.drop_last(), depth);
    }
}

/// Things spelled out after others.
proof fn lemma_spelled_concat<S>(
    tree: spec_fn(S) -> Seq<Found<S>>,
    a: Seq<PendingView<S>>,
    b: Seq<PendingView<S>>,
    depth: nat,
)
    ensures
        spelled_all(tree, a + b, depth) == spelled_all(tree, a, depth) + spelled_all(
            tree,
            b,
            depth,
        ),
    decreases b.len(),
{
    if b.len() == 0 {
        assert(a + b =~= a);
        assert(spelled_all(tree, a, depth) + Seq::<Listed<S>>::empty() =~= spelled_all(
            tree,
            a,
            depth,
        ));
    } else {
        assert((a + b).drop_last() =~= a + b.drop_last());
        assert((a + b).last() == b.last());
        lemma_spelled_concat(tree, a, b.drop_last(), depth);
        assert(spelled_all(tree, a, depth) + spelled_all(tree, b.drop_last(), depth) + spelled(
            tree,
            b.last(),
            depth,
        ) =~= spelled_all(tree, a, depth) + (spelled_all(tree, b.drop_last(), depth) + spelled(
            tree,
            b.last(),
            depth,
        )));
    }
}

/// What one step of a walk over `tree` makes of it: the next thing is spelled out,
/// and where it is a folder, what is in it is taken in.
pub open spec fn walked<S>(
    tree: spec_fn(S) -> Seq<Found<S>>,
    before: Walk<S>,
    after: Walk<S>,
) -> bool {
    let p = before.stack@.last();
    &&& before.stack@.len() > 0
    &&& match p.kind {
        Kind::File { size } => {
            &&& !has_name(before.out@, p.rel@)
            &&& after.out@ == before.out@.push((FileEntry { rel_path: p.rel, size }, p.source))
            &&& after.stack@ == before.stack@.drop_last()
        },
        Kind::Folder => {
            &&& after.out@ == before.out@
            &&& waiting(after.stack@) == waiting(before.stack@.drop_last()) + contents(
                p.rel@,
                tree(p.source),
            ).reverse()
        },
        Kind::Other => after.out@ == before.out@ && after.stack@ == before.stack@.drop_last(),
    }
}

/// What is in the manifest of a walk and what is still to come.
pub open spec fn in_the_end<S>(
    tree: spec_fn(S) -> Seq<Found<S>>,
    walk: Walk<S>,
    depth: nat,
) -> Seq<Listed<S>> {
    listed(walk.out@) + spelled_all(tree, waiting(walk.stack@).reverse(), depth)
}

/// A walk spells out everything, in order and once: no step changes what the manifest
/// will be in the end. A walk with nothing left has spelled it all out.
pub proof fn lemma_walk_spells_all<S>(
    tree: spec_fn(S) -> Seq<Found<S>>,
    before: Walk<S>,
    after: Walk<S>,
    depth: nat,
)
    requires
        forall|i: int|
            0 <= i < before.stack@.len() ==> shallow(tree, (#[trigger] before.stack@[i])@, depth),
        walked(tree, before, after),
    ensures
        in_the_end(tree, after, depth) == in_the_end(tree, before, depth),
        forall|i: int|
            0 <= i < after.stack@.len() ==> shallow(tree, (#[trigger] after.stack@[i])@, depth),
        after.stack@.len() == 0 ==> listed(after.out@) == in_the_end(tree, before, depth),
{
    let p = before.stack@.last();
    let rest = waiting(before.stack@.drop_last());
    let old_list = waiting(before.stack@).reverse();
    let new_list = waiting(after.stack@).reverse();
    assert(shallow(tree, before.stack@[before.stack@.len() - 1]@, depth));
    assert(old_list =~= seq![p@] + rest.reverse());
    lemma_spelled_concat(tree, seq![p@], rest.reverse(), depth);
    assert(seq![p@].drop_last() =~= Seq::<PendingView<S>>::empty());
    assert(spelled_all(tree, seq![p@].drop_last(), depth) =~= Seq::<Listed<S>>::empty());
    assert(spelled_all(tree, seq![p@], depth) =~= spelled(tree, p@, depth));
    if p.kind is Folder {
        let inside = contents(p.rel@, tree(p.source));
        assert(new_list =~= inside + rest.reverse());
        lemma_spelled_concat(tree, inside, rest.reverse(), depth);
        let d = (depth - 1) as nat;
        lemma_all_deeper(tree, inside, d);
        assert(d + 1 == depth);
        assert forall|i: int| 0 <= i < after.stack@.len() implies shallow(
            tree,
            (#[trigger] after.stack@[i])@,
            depth,
        ) by {
            let w = waiting(after.stack@);
            assert(w[i] == after.stack@[i]@);
            if i < rest.len() {
                assert(w[i] == rest[i]);
                assert(rest[i] == before.stack@[i]@);
            } else {
                let k = inside.len() - 1 - (i - rest.len());
                assert(w[i] == inside[k]);
                assert(shallow(tree, inside[k], d));
                lemma_deeper(tree, inside[k], d);
            }
        }
    } else {
        assert(new_list =~= rest.reverse());
        assert forall|i: int| 0 <= i < after.stack@.len() implies shallow(
            tree,
            (#[trigger] after.stack@[i])@,
            depth,
        ) by {
            assert(after.stack@[i] == before.stack@[i]);
        }
    }
    assert(in_the_end(tree, after, depth) =~= in_the_end(tree, before, depth));
    if after.stack@.len() == 0 {
        assert(new_list =~= Seq::<PendingView<S>>::empty());
        assert(listed(after.out@) =~= in_the_end(tree, after, depth));
    }
}

} // verus!
