//! Receiving and sending.

use vstd::prelude::*;
use vstd::utf8::encode_utf8;

use crate::order::{
    lemma_sorted_same_images, lemma_sorted_same_values, lemma_stable_sorted, lex_le, stable_sorted,
    Keyed,
};
use crate::protocol::EntryView;
use crate::text::dec;
use crate::transfer::chunks::lemma_chunk_inside;
use crate::transfer::manifest::{
    contents, manifest_bytes, spelled, spelled_all, waiting, Found, Kind, Listed, Pending,
    PendingView,
};
use crate::transfer::paths::{
    candidate, last_dot, lemma_last_dot, meta_of, numbered, part_of, RelPath,
};
use crate::transfer::receiver::is_there;
use crate::transfer::session::{
    blank_bitmap, chosen_path, first_bitmap, is_record, meta_matches, resumed_bitmap, verdict,
    ChunkStep, FileState, PartMeta,
};
use crate::util::{all_pairs, bit, hex, unhex};

verus! {

// ---- chunks ----

/// What becomes of a chunk. It is acknowledged without a write exactly when it is
/// below the count and its bit is set. It is written exactly when it is below the
/// count, its bit is not set, the digest is the one that was announced and the file is
/// open, and then at its own place. In every other case it is refused, so that the
/// sender tries again.
pub proof fn lemma_chunk_decided(
    f: FileState,
    chunk_size: u64,
    idx: u64,
    digest_hex: Seq<char>,
    announced: Seq<char>,
)
    ensures
        ({
            let marked = idx < f.total_chunks && bit(f.prog.bitmap@, idx as int);
            let wanted = idx < f.total_chunks && !bit(f.prog.bitmap@, idx as int) && f.prog.open
                && digest_hex == announced;
            let r = verdict(f, chunk_size, idx, digest_hex, announced);
            &&& r == ChunkStep::Ack(true) <==> marked
            &&& r is Write <==> wanted
            &&& r == ChunkStep::Ack(false) <==> !marked && !wanted
            &&& f.wf(chunk_size) ==> (r matches ChunkStep::Write { offset } ==> offset == idx
                * chunk_size)
        }),
{
    if f.wf(chunk_size) && idx < f.total_chunks {
        lemma_chunk_inside(f.entry.size as int, chunk_size as int, idx as int);
    }
}

/// A damaged chunk is never taken for one that is there: whatever is on disk, a chunk
/// that is not marked and whose digest differs from the announced one is refused, and
/// so is every chunk behind the end of the file.
pub proof fn lemma_damage_is_refused(
    f: FileState,
    chunk_size: u64,
    idx: u64,
    digest_hex: Seq<char>,
    announced: Seq<char>,
)
    requires
        idx >= f.total_chunks || (digest_hex != announced && !bit(f.prog.bitmap@, idx as int)),
    ensures
        verdict(f, chunk_size, idx, digest_hex, announced) == ChunkStep::Ack(false),
        forall|stored: bool|
            !#[trigger] is_there(
                verdict(f, chunk_size, idx, digest_hex, announced),
                stored,
            ),
{
}

/// The sender hears "yes" about a chunk only if its bit is set or it was just stored.
pub proof fn lemma_yes_means_there(
    f: FileState,
    chunk_size: u64,
    idx: u64,
    digest_hex: Seq<char>,
    announced: Seq<char>,
    stored: bool,
)
    ensures
        is_there(verdict(f, chunk_size, idx, digest_hex, announced), stored) ==> idx
            < f.total_chunks && (bit(f.prog.bitmap@, idx as int) || (stored && digest_hex
            == announced && f.prog.open)),
        bit(f.prog.bitmap@, idx as int) && idx < f.total_chunks ==> is_there(
            verdict(f, chunk_size, idx, digest_hex, announced),
            stored,
        ),
{
}

/// A record is used exactly when it is of a file of this size and this chunk size.
pub proof fn lemma_record_matches(m: PartMeta, size: u64, chunk_size: u64)
    ensures
        meta_matches(Some(m), size, chunk_size) <==> m.size == size && m.chunk_size == chunk_size,
        !meta_matches(None, size, chunk_size),
{
}

/// A record holds the size of the file, the size of its chunks, and a text from which
/// every byte of the bitmap is read back.
pub proof fn lemma_record_tells_all(m: PartMeta, f: FileState, chunk_size: u64)
    requires
        is_record(m, f, chunk_size),
    ensures
        m.size == f.entry.size,
        m.chunk_size == chunk_size,
        unhex(encode_utf8(m.bitmap_hex@)) == f.prog.bitmap@,
{
    crate::util::lemma_hex_round_trip(f.prog.bitmap@);
}

/// What a file is resumed with: as many bytes of bitmap as its chunks take, each from
/// the record as long as that has one and zero behind it. A record that cannot be
/// read, and no record at all, mark no chunk.
pub proof fn lemma_resume_starts(m: PartMeta, chunks: int, bytes: Seq<u8>)
    requires
        0 <= chunks,
    ensures
        first_bitmap(Some(m), chunks).len() * 8 >= chunks,
        first_bitmap(Some(m), chunks).len() * 8 < chunks + 8,
        first_bitmap(None, chunks).len() == first_bitmap(Some(m), chunks).len(),
        m.bitmap_hex@ == hex(bytes) ==> forall|i: int|
            0 <= i < first_bitmap(Some(m), chunks).len() ==> #[trigger] first_bitmap(
                Some(m),
                chunks,
            )[i] == if i < bytes.len() {
                bytes[i]
            } else {
                0
            },
        encode_utf8(m.bitmap_hex@).len() % 2 == 0 && all_pairs(encode_utf8(m.bitmap_hex@))
            ==> forall|i: int|
            0 <= i < first_bitmap(Some(m), chunks).len() ==> #[trigger] first_bitmap(
                Some(m),
                chunks,
            )[i] == if i < encode_utf8(m.bitmap_hex@).len() / 2 {
                unhex(encode_utf8(m.bitmap_hex@))[i]
            } else {
                0
            },
        !(encode_utf8(m.bitmap_hex@).len() % 2 == 0 && all_pairs(encode_utf8(m.bitmap_hex@)))
            ==> forall|c: int| !bit(first_bitmap(Some(m), chunks), c),
        forall|c: int| !bit(first_bitmap(None, chunks), c),
{
    crate::util::lemma_hex_round_trip(bytes);
    crate::util::lemma_bits_set_none(blank_bitmap(chunks), 0);
    if !(encode_utf8(m.bitmap_hex@).len() % 2 == 0 && all_pairs(encode_utf8(m.bitmap_hex@))) {
        crate::util::lemma_bits_set_none(resumed_bitmap(m.bitmap_hex@, chunks), 0);
    }
}

/// A file that starts from nothing has no chunk.
pub proof fn lemma_blank(chunks: int)
    ensures
        forall|c: int| !bit(first_bitmap(None, chunks), c),
{
    crate::util::lemma_bits_set_none(blank_bitmap(chunks), 0);
}

/// Bitmaps that mark the same chunks and have the same length are the same: no bit of
/// a bitmap is without meaning.
pub proof fn lemma_bits_are_chunks(a: Seq<u8>, b: Seq<u8>)
    requires
        a.len() == b.len(),
        forall|c: int| 0 <= c < a.len() * 8 ==> #[trigger] bit(a, c) == bit(b, c),
    ensures
        a == b,
{
    assert forall|i: int| 0 <= i < a.len() implies a[i] == b[i] by {
        let x = a[i];
        let y = b[i];
        assert(bit(a, i * 8) == bit(b, i * 8));
        assert(bit(a, i * 8 + 1) == bit(b, i * 8 + 1));
        assert(bit(a, i * 8 + 2) == bit(b, i * 8 + 2));
        assert(bit(a, i * 8 + 3) == bit(b, i * 8 + 3));
        assert(bit(a, i * 8 + 4) == bit(b, i * 8 + 4));
        assert(bit(a, i * 8 + 5) == bit(b, i * 8 + 5));
        assert(bit(a, i * 8 + 6) == bit(b, i * 8 + 6));
        assert(bit(a, i * 8 + 7) == bit(b, i * 8 + 7));
        assert(x == y) by (bit_vector)
            requires
                (x & (1u8 << 0u8) != 0) == (y & (1u8 << 0u8) != 0),
                (x & (1u8 << 1u8) != 0) == (y & (1u8 << 1u8) != 0),
                (x & (1u8 << 2u8) != 0) == (y & (1u8 << 2u8) != 0),
                (x & (1u8 << 3u8) != 0) == (y & (1u8 << 3u8) != 0),
                (x & (1u8 << 4u8) != 0) == (y & (1u8 << 4u8) != 0),
                (x & (1u8 << 5u8) != 0) == (y & (1u8 << 5u8) != 0),
                (x & (1u8 << 6u8) != 0) == (y & (1u8 << 6u8) != 0),
                (x & (1u8 << 7u8) != 0) == (y & (1u8 << 7u8) != 0),
        ;
    }
    assert(a =~= b);
}

// ---- where a file goes ----

/// Nothing is overwritten. A file that starts from nothing goes to a path at which
/// something was found to be absent. The one exception is a file whose own name is
/// taken and all of whose 9999 numbered names are blocked, each by something at the
/// name or at the name of its incomplete file.
pub proof fn lemma_nothing_is_overwritten<F: Fn(&RelPath) -> bool>(
    taken: F,
    rel: Seq<Seq<char>>,
    chosen: Seq<Seq<char>>,
)
    requires
        chosen_path(taken, rel, None, chosen),
    ensures
        (exists|p: RelPath| p@ == chosen && #[trigger] call_ensures(taken, (&p,), false)) || (chosen
            == rel && (exists|p: RelPath| p@ == rel && #[trigger] call_ensures(taken, (&p,), true))
            && forall|n: nat|
            1 <= n <= 9999 ==> exists|p: RelPath|
                (p@ == #[trigger] candidate(rel, n) || p@ == part_of(candidate(rel, n)))
                    && #[trigger] call_ensures(taken, (&p,), true)),
{
    if !(exists|p: RelPath| p@ == chosen && #[trigger] call_ensures(taken, (&p,), false)) {
        assert forall|n: nat| 1 <= n <= 9999 implies exists|p: RelPath|
            (p@ == #[trigger] candidate(rel, n) || p@ == part_of(candidate(rel, n)))
                && #[trigger] call_ensures(taken, (&p,), true) by {
            assert(crate::transfer::paths::name_blocked(taken, rel, n));
        }
    }
}

/// A file keeps its own name unless that is taken; otherwise it stays in its folder
/// under the first numbered name that is free, and neither that name nor that of its
/// incomplete file is in use.
pub proof fn lemma_name_is_kept_or_numbered<F: Fn(&RelPath) -> bool>(
    taken: F,
    rel: Seq<Seq<char>>,
    chosen: Seq<Seq<char>>,
)
    requires
        rel.len() > 0,
        chosen_path(taken, rel, None, chosen),
    ensures
        !(exists|p: RelPath| p@ == rel && #[trigger] call_ensures(taken, (&p,), true)) ==> chosen
            == rel,
        chosen.len() == rel.len(),
        forall|i: int| 0 <= i < rel.len() - 1 ==> chosen[i] == rel[i],
        chosen != rel ==> exists|n: nat|
            1 <= n <= 9999 && chosen == #[trigger] candidate(rel, n) && (exists|p: RelPath|
                p@ == part_of(chosen) && #[trigger] call_ensures(taken, (&p,), false))
                && forall|k: nat|
                1 <= k < n ==> exists|p: RelPath|
                    (p@ == #[trigger] candidate(rel, k) || p@ == part_of(candidate(rel, k)))
                        && #[trigger] call_ensures(taken, (&p,), true),
{
    if chosen != rel {
        let n = choose|n: nat|
            1 <= n < 10000 && chosen == candidate(rel, n)
                && #[trigger] crate::transfer::paths::name_free(taken, rel, n) && forall|k: nat|
                1 <= k < n ==> #[trigger] crate::transfer::paths::name_blocked(taken, rel, k);
        assert(chosen == candidate(rel, n));
        assert forall|k: nat| 1 <= k < n implies exists|p: RelPath|
            (p@ == #[trigger] candidate(rel, k) || p@ == part_of(candidate(rel, k)))
                && #[trigger] call_ensures(taken, (&p,), true) by {
            assert(crate::transfer::paths::name_blocked(taken, rel, k));
        }
    }
}

/// Where something is at the file's own name, at whatever depth that lies, the file gets
/// a numbered one at which nothing is, unless all 9999 are blocked.
pub proof fn lemma_taken_name_is_numbered<F: Fn(&RelPath) -> bool>(
    taken: F,
    rel: Seq<Seq<char>>,
    chosen: Seq<Seq<char>>,
)
    requires
        chosen_path(taken, rel, None, chosen),
        !(exists|p: RelPath| p@ == rel && #[trigger] call_ensures(taken, (&p,), false)),
    ensures
        (exists|n: nat|
            1 <= n <= 9999 && chosen == #[trigger] candidate(rel, n) && exists|p: RelPath|
                p@ == chosen && #[trigger] call_ensures(taken, (&p,), false)) || (chosen == rel
            && forall|n: nat|
            1 <= n <= 9999 ==> exists|p: RelPath|
                (p@ == #[trigger] candidate(rel, n) || p@ == part_of(candidate(rel, n)))
                    && #[trigger] call_ensures(taken, (&p,), true)),
{
    lemma_nothing_is_overwritten(taken, rel, chosen);
    if exists|n: nat|
        1 <= n < 10000 && chosen == candidate(rel, n)
            && #[trigger] crate::transfer::paths::name_free(taken, rel, n) {
        let n = choose|n: nat|
            1 <= n < 10000 && chosen == candidate(rel, n)
                && #[trigger] crate::transfer::paths::name_free(taken, rel, n);
        assert(chosen == candidate(rel, n));
    }
}

/// A numbered path lies in the same folder as the path, under the numbered name, and
/// is another path.
pub proof fn lemma_candidate(rel: Seq<Seq<char>>, n: nat)
    requires
        rel.len() > 0,
    ensures
        candidate(rel, n).len() == rel.len(),
        candidate(rel, n).drop_last() == rel.drop_last(),
        candidate(rel, n).last() == numbered(rel.last(), n),
        candidate(rel, n) != rel,
{
    lemma_numbers_tell_apart(rel.last(), n, n);
    assert(candidate(rel, n).drop_last() =~= rel.drop_last());
}

/// A file that is resumed goes on at its own name.
pub proof fn lemma_resumed_keeps_its_name<F: Fn(&RelPath) -> bool>(
    taken: F,
    rel: Seq<Seq<char>>,
    m: PartMeta,
    chosen: Seq<Seq<char>>,
)
    ensures
        chosen_path(taken, rel, Some(m), chosen) <==> chosen == rel,
{
}

/// The two companions of a file stand beside it, under its name and a suffix; they
/// differ from it and from each other, and files of different names have different
/// companions.
pub proof fn lemma_companions(a: Seq<Seq<char>>, b: Seq<Seq<char>>)
    requires
        a.len() > 0,
        b.len() > 0,
    ensures
        part_of(a).len() == a.len(),
        meta_of(a).len() == a.len(),
        forall|i: int| 0 <= i < a.len() - 1 ==> part_of(a)[i] == a[i] && meta_of(a)[i] == a[i],
        part_of(a).last() == a.last() + ".caybulpart"@,
        meta_of(a).last() == a.last() + ".caybulmeta"@,
        part_of(a) != a,
        meta_of(a) != a,
        part_of(a) != meta_of(a),
        part_of(a) == part_of(b) ==> a == b,
        meta_of(a) == meta_of(b) ==> a == b,
{
    reveal_strlit(".caybulpart");
    reveal_strlit(".caybulmeta");
    let x = a.last();
    let y = b.last();
    let p = ".caybulpart"@;
    let m = ".caybulmeta"@;
    assert((x + p).len() == x.len() + 11);
    assert((x + p)[x.len() as int + 7] == p[7]);
    assert((x + m)[x.len() as int + 7] == m[7]);
    if part_of(a) == part_of(b) {
        assert(part_of(a).last() == part_of(b).last());
        assert(x =~= (x + p).take((x + p).len() - 11));
        assert(y =~= (y + p).take((y + p).len() - 11));
        assert forall|i: int| 0 <= i < a.len() implies a[i] == b[i] by {
            assert(part_of(a)[i] == part_of(b)[i]);
        }
        assert(a =~= b);
    }
    if meta_of(a) == meta_of(b) {
        assert(meta_of(a).last() == meta_of(b).last());
        assert(x =~= (x + m).take((x + m).len() - 11));
        assert(y =~= (y + m).take((y + m).len() - 11));
        assert forall|i: int| 0 <= i < a.len() implies a[i] == b[i] by {
            assert(meta_of(a)[i] == meta_of(b)[i]);
        }
        assert(a =~= b);
    }
}

proof fn lemma_last_dot_is_last(s: Seq<char>)
    ensures
        -1 <= last_dot(s) < s.len(),
        last_dot(s) >= 0 ==> s[last_dot(s)] == '.',
        forall|i: int| last_dot(s) < i < s.len() ==> s[i] != '.',
    decreases s.len(),
{
    if s.len() > 0 && s.last() != '.' {
        lemma_last_dot_is_last(s.drop_last());
        assert forall|i: int| last_dot(s) < i < s.len() implies s[i] != '.' by {
            if i < s.len() - 1 {
                assert(s.drop_last()[i] == s[i]);
            }
        }
    }
}

/// A numbered name is the name with a space and the number in brackets before its
/// extension: `dot` is where the extension starts, behind the last dot that does not
/// open the name. Without one they stand at the end.
pub proof fn lemma_numbered(name: Seq<char>, n: nat, dot: int)
    ensures
        0 < dot < name.len() && name[dot] == '.' && (forall|i: int|
            dot < i < name.len() ==> name[i] != '.') ==> numbered(name, n) == name.take(dot)
            + " ("@ + dec(n) + ")"@ + name.skip(dot),
        (forall|i: int| 0 < i < name.len() ==> name[i] != '.') ==> numbered(name, n) == name
            + " ("@ + dec(n) + ")"@,
{
    lemma_last_dot_is_last(name);
    if 0 < dot < name.len() && name[dot] == '.' && (forall|i: int|
        dot < i < name.len() ==> name[i] != '.') {
        assert(last_dot(name) == dot);
        reveal_strlit(").");
        reveal_strlit(")");
        assert(name.skip(dot) =~= seq!['.'] + name.skip(dot + 1));
        assert(")."@ =~= ")"@ + seq!['.']);
        assert(name.take(dot) + " ("@ + dec(n) + ")."@ + name.skip(dot + 1) =~= name.take(dot)
            + " ("@ + dec(n) + ")"@ + name.skip(dot));
    }
    if forall|i: int| 0 < i < name.len() ==> name[i] != '.' {
        assert(last_dot(name) <= 0);
    }
}

/// Numbered names differ from the name and from each other.
pub proof fn lemma_numbers_tell_apart(name: Seq<char>, a: nat, b: nat)
    ensures
        numbered(name, a) != name,
        numbered(name, a) == numbered(name, b) ==> a == b,
{
    reveal_strlit(" (");
    reveal_strlit(").");
    reveal_strlit(")");
    lemma_last_dot(name);
    crate::text::lemma_dec_value(a);
    crate::text::lemma_dec_value(b);
    assert(numbered(name, a).len() > name.len());
    if numbered(name, a) == numbered(name, b) {
        let dot = last_dot(name);
        let head = if dot <= 0 {
            name + " ("@
        } else {
            name.take(dot) + " ("@
        };
        let tail = if dot <= 0 {
            ")"@
        } else {
            ")."@ + name.skip(dot + 1)
        };
        assert(numbered(name, a) =~= head + dec(a) + tail);
        assert(numbered(name, b) =~= head + dec(b) + tail);
        assert(dec(a).len() == dec(b).len());
        assert forall|i: int| 0 <= i < dec(a).len() implies dec(a)[i] == dec(b)[i] by {
            assert((head + dec(a) + tail)[head.len() + i] == dec(a)[i]);
            assert((head + dec(b) + tail)[head.len() + i] == dec(b)[i]);
        }
        assert(dec(a) =~= dec(b));
        crate::text::lemma_dec_injective(a, b);
    }
}

// ---- the manifest ----

/// What is found in a folder, named below it.
pub open spec fn below<S>(rel: Seq<char>, f: Found<S>) -> PendingView<S> {
    PendingView { rel: rel + "/"@ + f.name@, kind: f.kind, source: f.source }
}

/// What waits for a folder is what was found there, sorted by the raw bytes of the
/// names: each item once, with its own kind and source, under the folder's name, a
/// slash and its own name. None is added and none is left out, whatever it is called.
pub proof fn lemma_contents_are_what_was_found<S>(rel: Seq<char>, found: Seq<Found<S>>)
    ensures
        contents(rel, found).to_multiset() == Seq::new(
            found.len(),
            |i: int| below(rel, found[i]),
        ).to_multiset(),
        exists|sorted: Seq<Found<S>>|
            #![trigger sorted.to_multiset()]
            sorted.to_multiset() == found.to_multiset() && sorted.len() == found.len() && (forall|
                i: int,
                j: int,
            |
                0 <= i < j < sorted.len() ==> lex_le(
                    (#[trigger] sorted[i]).key@.map_values(|b: u8| b as int),
                    (#[trigger] sorted[j]).key@.map_values(|b: u8| b as int),
                )) && contents(rel, found) == Seq::new(
                sorted.len(),
                |i: int| below(rel, sorted[i]),
            ),
{
    let sorted = stable_sorted(found);
    lemma_stable_sorted(found);
    lemma_sorted_same_values(found);
    assert(sorted.to_multiset() == found.to_multiset());
    assert(contents(rel, found) =~= Seq::new(sorted.len(), |i: int| below(rel, sorted[i])));
    assert forall|i: int, j: int| 0 <= i < j < sorted.len() implies lex_le(
        (#[trigger] sorted[i]).key@.map_values(|b: u8| b as int),
        (#[trigger] sorted[j]).key@.map_values(|b: u8| b as int),
    ) by {
        assert(lex_le(sorted[i].key(), sorted[j].key()));
        assert(sorted[i].key() =~= sorted[i].key@.map_values(|b: u8| b as int));
        assert(sorted[j].key() =~= sorted[j].key@.map_values(|b: u8| b as int));
    }
    let f = |x: Found<S>| below(rel, x);
    lemma_sorted_same_images(found, f);
    assert(sorted.map_values(f) =~= contents(rel, found));
    assert(found.map_values(f) =~= Seq::new(found.len(), |i: int| below(rel, found[i])));
}

/// Every item that is found is waiting.
pub proof fn lemma_found_is_waiting<S>(rel: Seq<char>, found: Seq<Found<S>>, i: int)
    requires
        0 <= i < found.len(),
    ensures
        contents(rel, found).contains(below(rel, found[i])),
{
    broadcast use vstd::seq_lib::group_to_multiset_ensures;

    lemma_contents_are_what_was_found(rel, found);
    let all = Seq::new(found.len(), |i: int| below(rel, found[i]));
    assert(all[i] == below(rel, found[i]));
    assert(all.contains(below(rel, found[i])));
    assert(all.to_multiset().count(below(rel, found[i])) > 0);
}

/// Whatever waits was found.
pub proof fn lemma_waiting_was_found<S>(rel: Seq<char>, found: Seq<Found<S>>, k: int)
    requires
        0 <= k < contents(rel, found).len(),
    ensures
        exists|i: int|
            0 <= i < found.len() && contents(rel, found)[k] == below(rel, #[trigger] found[i]),
{
    broadcast use vstd::seq_lib::group_to_multiset_ensures;

    lemma_contents_are_what_was_found(rel, found);
    let c = contents(rel, found);
    let all = Seq::new(found.len(), |i: int| below(rel, found[i]));
    assert(c.contains(c[k]));
    assert(c.to_multiset().count(c[k]) > 0);
    assert(all.contains(c[k]));
    let i = choose|i: int| 0 <= i < all.len() && all[i] == c[k];
    assert(c[k] == below(rel, found[i]));
}

/// What a folder adds to what waits is what was found in it: each item once, under the
/// folder's name and its own, with its own kind and source.
pub proof fn lemma_folder_adds<S>(
    before: Seq<Pending<S>>,
    after: Seq<Pending<S>>,
    rel: Seq<char>,
    found: Seq<Found<S>>,
)
    requires
        waiting(after) == waiting(before) + contents(rel, found).reverse(),
    ensures
        after.len() == before.len() + found.len(),
        forall|i: int|
            0 <= i < found.len() ==> exists|k: int|
                before.len() <= k < after.len() && (#[trigger] after[k]).rel@ == rel + "/"@ + (
                #[trigger] found[i]).name@ && after[k].kind == found[i].kind && after[k].source
                    == found[i].source,
        forall|k: int|
            before.len() <= k < after.len() ==> exists|i: int|
                0 <= i < found.len() && (#[trigger] after[k]).rel@ == rel + "/"@ + (
                #[trigger] found[i]).name@ && after[k].kind == found[i].kind && after[k].source
                    == found[i].source,
{
    let target = contents(rel, found);
    let back = target.reverse();
    let n = before.len();
    lemma_stable_sorted(found);
    assert(waiting(after).len() == after.len());
    assert(waiting(before).len() == n);
    assert(target.len() == found.len());
    assert forall|k: int| n <= k < after.len() implies (#[trigger] after[k])@ == target[n
        + target.len() - 1 - k] by {
        assert(waiting(after)[k] == after[k]@);
        assert((waiting(before) + back)[k] == back[k - n]);
    }
    assert forall|i: int| 0 <= i < found.len() implies exists|k: int|
        n <= k < after.len() && (#[trigger] after[k]).rel@ == rel + "/"@ + (
        #[trigger] found[i]).name@ && after[k].kind == found[i].kind && after[k].source
            == found[i].source by {
        lemma_found_is_waiting(rel, found, i);
        let j = choose|j: int| 0 <= j < target.len() && target[j] == below(rel, found[i]);
        let k = n + target.len() - 1 - j;
        assert(after[k]@ == target[j]);
    }
    assert forall|k: int| n <= k < after.len() implies exists|i: int|
        0 <= i < found.len() && (#[trigger] after[k]).rel@ == rel + "/"@ + (
        #[trigger] found[i]).name@ && after[k].kind == found[i].kind && after[k].source
            == found[i].source by {
        let j = n + target.len() - 1 - k;
        assert(after[k]@ == target[j]);
        lemma_waiting_was_found(rel, found, j);
        let i = choose|i: int|
            0 <= i < found.len() && target[j] == below(rel, #[trigger] found[i]);
        assert(after[k]@ == below(rel, found[i]));
    }
}

proof fn lemma_spelled_all_members<S>(
    tree: spec_fn(S) -> Seq<Found<S>>,
    list: Seq<PendingView<S>>,
    depth: nat,
    x: Listed<S>,
)
    ensures
        spelled_all(tree, list, depth).contains(x) <==> exists|i: int|
            0 <= i < list.len() && spelled(tree, #[trigger] list[i], depth).contains(x),
    decreases list.len(),
{
    if list.len() > 0 {
        let a = spelled_all(tree, list.drop_last(), depth);
        let b = spelled(tree, list.last(), depth);
        lemma_spelled_all_members(tree, list.drop_last(), depth, x);
        if a.contains(x) {
            let i = choose|i: int|
                0 <= i < list.drop_last().len() && spelled(
                    tree,
                    #[trigger] list.drop_last()[i],
                    depth,
                ).contains(x);
            assert(spelled(tree, list[i], depth).contains(x));
        }
        if exists|i: int| 0 <= i < list.len() && spelled(tree, #[trigger] list[i], depth).contains(x) {
            let i = choose|i: int|
                0 <= i < list.len() && spelled(tree, #[trigger] list[i], depth).contains(x);
            if i < list.len() - 1 {
                assert(list.drop_last()[i] == list[i]);
                assert(a.contains(x));
            } else {
                assert(b.contains(x));
            }
        }
        if a.contains(x) {
            let k = choose|k: int| 0 <= k < a.len() && a[k] == x;
            assert((a + b)[k] == x);
        }
        if b.contains(x) {
            let k = choose|k: int| 0 <= k < b.len() && b[k] == x;
            assert((a + b)[a.len() + k] == x);
            assert(list[list.len() - 1] == list.last());
        }
        if (a + b).contains(x) {
            let k = choose|k: int| 0 <= k < (a + b).len() && (a + b)[k] == x;
            if k < a.len() {
                assert(a[k] == x);
            } else {
                assert(b[k - a.len()] == x);
            }
        }
    }
}

/// What one item adds to the manifest. A file is one entry, with its name, its size
/// and its source; what is neither file nor folder adds nothing; and a folder adds
/// what each item found in it adds, and nothing else.
pub proof fn lemma_what_an_item_adds<S>(
    tree: spec_fn(S) -> Seq<Found<S>>,
    p: PendingView<S>,
    depth: nat,
    x: Listed<S>,
)
    ensures
        p.kind matches Kind::File { size } ==> (spelled(tree, p, depth).len() == 1 && spelled(
            tree,
            p,
            depth,
        )[0].rel == p.rel && spelled(tree, p, depth)[0].size == size && spelled(
            tree,
            p,
            depth,
        )[0].source == p.source),
        p.kind is Other ==> spelled(tree, p, depth).len() == 0,
        p.kind is Folder && depth > 0 ==> (spelled(tree, p, depth).contains(x) <==> exists|i: int|
            0 <= i < tree(p.source).len() && spelled(
                tree,
                below(p.rel, #[trigger] tree(p.source)[i]),
                (depth - 1) as nat,
            ).contains(x)),
{
    if p.kind is Folder && depth > 0 {
        let found = tree(p.source);
        let list = contents(p.rel, found);
        let d = (depth - 1) as nat;
        lemma_spelled_all_members(tree, list, d, x);
        if exists|i: int|
            0 <= i < found.len() && spelled(tree, below(p.rel, #[trigger] found[i]), d).contains(
                x,
            ) {
            let i = choose|i: int|
                0 <= i < found.len() && spelled(tree, below(p.rel, #[trigger] found[i]), d).contains(
                    x,
                );
            lemma_found_is_waiting(p.rel, found, i);
            let k = choose|k: int| 0 <= k < list.len() && list[k] == below(p.rel, found[i]);
            assert(spelled(tree, list[k], d).contains(x));
        }
        if spelled(tree, p, depth).contains(x) {
            let k = choose|k: int|
                0 <= k < list.len() && spelled(tree, #[trigger] list[k], d).contains(x);
            lemma_waiting_was_found(p.rel, found, k);
            let i = choose|i: int|
                0 <= i < found.len() && list[k] == below(p.rel, #[trigger] found[i]);
            assert(spelled(tree, below(p.rel, found[i]), d).contains(x));
        }
    }
}

/// `trail` leads down from the folder `source`: each step is found in the one before
/// it, and all but the last are folders.
pub open spec fn leads_down<S>(
    tree: spec_fn(S) -> Seq<Found<S>>,
    source: S,
    trail: Seq<Found<S>>,
) -> bool
    decreases trail.len(),
{
    trail.len() > 0 && tree(source).contains(trail[0]) && (trail.len() == 1 || (trail[0].kind
        is Folder && leads_down(tree, trail[0].source, trail.skip(1))))
}

/// The name of what a trail leads to: the names of its steps behind slashes.
pub open spec fn name_along<S>(rel: Seq<char>, trail: Seq<Found<S>>) -> Seq<char>
    decreases trail.len(),
{
    if trail.len() == 0 {
        rel
    } else {
        name_along(rel + "/"@ + trail[0].name@, trail.skip(1))
    }
}

/// Every regular file of the tree is in the manifest, at any depth and whatever the
/// names on the way to it: under its path, with its size and its source.
pub proof fn lemma_every_file_is_listed<S>(
    tree: spec_fn(S) -> Seq<Found<S>>,
    p: PendingView<S>,
    trail: Seq<Found<S>>,
    size: u64,
    depth: nat,
)
    requires
        p.kind is Folder,
        leads_down(tree, p.source, trail),
        trail.last().kind == (Kind::File { size }),
        trail.len() <= depth,
    ensures
        spelled(tree, p, depth).contains(
            Listed { rel: name_along(p.rel, trail), size, source: trail.last().source },
        ),
    decreases trail.len(),
{
    let x = Listed { rel: name_along(p.rel, trail), size, source: trail.last().source };
    let d = (depth - 1) as nat;
    let found = tree(p.source);
    let i = choose|i: int| 0 <= i < found.len() && found[i] == trail[0];
    let q = below(p.rel, found[i]);
    lemma_what_an_item_adds(tree, p, depth, x);
    if trail.len() == 1 {
        lemma_what_an_item_adds(tree, q, d, x);
        assert(trail.skip(1).len() == 0);
        assert(name_along(q.rel, trail.skip(1)) == q.rel);
        assert(spelled(tree, q, d)[0] == x);
    } else {
        assert(trail.skip(1).last() == trail.last());
        lemma_every_file_is_listed(tree, q, trail.skip(1), size, d);
    }
    assert(spelled(tree, below(p.rel, found[i]), d).contains(x));
}

/// The manifest holds nothing else: whatever is listed for a folder is a regular file
/// of the tree.
pub proof fn lemma_every_entry_is_a_file<S>(
    tree: spec_fn(S) -> Seq<Found<S>>,
    p: PendingView<S>,
    depth: nat,
    x: Listed<S>,
)
    requires
        p.kind is Folder,
        spelled(tree, p, depth).contains(x),
    ensures
        exists|trail: Seq<Found<S>>|
            #[trigger] leads_down(tree, p.source, trail) && trail.last().kind == (Kind::File {
                size: x.size,
            }) && x.source == trail.last().source && x.rel == name_along(p.rel, trail),
    decreases depth,
{
    let d = (depth - 1) as nat;
    let found = tree(p.source);
    lemma_what_an_item_adds(tree, p, depth, x);
    let i = choose|i: int|
        0 <= i < found.len() && spelled(tree, below(p.rel, #[trigger] found[i]), d).contains(x);
    let q = below(p.rel, found[i]);
    lemma_what_an_item_adds(tree, q, d, x);
    if q.kind is Folder {
        lemma_every_entry_is_a_file(tree, q, d, x);
        let rest = choose|rest: Seq<Found<S>>|
            #[trigger] leads_down(tree, q.source, rest) && rest.last().kind == (Kind::File {
                size: x.size,
            }) && x.source == rest.last().source && x.rel == name_along(q.rel, rest);
        let trail = seq![found[i]] + rest;
        assert(trail.skip(1) =~= rest);
        assert(trail[0] == found[i]);
        assert(trail.last() == rest.last());
        assert(leads_down(tree, p.source, trail));
    } else {
        let trail = seq![found[i]];
        assert(trail.skip(1).len() == 0);
        assert(trail.last() == found[i]);
        assert(name_along(q.rel, trail.skip(1)) == q.rel);
        assert(leads_down(tree, p.source, trail));
    }
}

/// The entries of a folder stand in the order in which its items wait.
pub proof fn lemma_folder_in_order<S>(
    tree: spec_fn(S) -> Seq<Found<S>>,
    p: PendingView<S>,
    depth: nat,
)
    requires
        p.kind is Folder,
    ensures
        spelled(tree, p, depth + 1) == spelled_all(tree, contents(p.rel, tree(p.source)), depth),
{
}

/// The entries of two lists of items, one behind the other, are the entries of the
/// first and then those of the second.
pub proof fn lemma_listed_in_turn<S>(
    tree: spec_fn(S) -> Seq<Found<S>>,
    a: Seq<PendingView<S>>,
    p: PendingView<S>,
    depth: nat,
)
    ensures
        spelled_all(tree, a.push(p), depth) == spelled_all(tree, a, depth) + spelled(
            tree,
            p,
            depth,
        ),
        spelled_all(tree, Seq::empty(), depth).len() == 0,
{
    assert(a.push(p).drop_last() =~= a);
}

/// The size of a manifest is the sum of the sizes in it: one entry more adds its
/// size, and an empty one has none.
pub proof fn lemma_manifest_sum(files: Seq<EntryView>, e: EntryView)
    ensures
        manifest_bytes(Seq::empty()) == 0,
        manifest_bytes(files.push(e)) == manifest_bytes(files) + e.size,
{
    assert(files.push(e).drop_last() =~= files);
}

} // verus!
