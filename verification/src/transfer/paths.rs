//! Where received files go: relative paths that cannot leave the destination
//! folder, and the names beside them while a file is incomplete.

use vstd::prelude::*;

use crate::text::{
    dec, dec_u64, from_chars, join_texts, joined, replace_char, replaced, same, split, split_text,
    texts, to_chars,
};

verus! {

/// A path below the destination folder, one name per step.
#[derive(Debug)]
pub struct RelPath {
    pub parts: Vec<String>,
}

impl View for RelPath {
    type V = Seq<Seq<char>>;

    open spec fn view(&self) -> Seq<Seq<char>> {
        texts(self.parts@)
    }
}

impl Clone for RelPath {
    fn clone(&self) -> (r: Self)
        ensures
            r@ == self@,
    {
        let mut parts: Vec<String> = Vec::new();
        let mut i: usize = 0;
        while i < self.parts.len()
            invariant
                i <= self.parts@.len(),
                texts(parts@) == self@.take(i as int),
            decreases self.parts@.len() - i,
        {
            let ghost before = parts@;
            parts.push(self.parts[i].clone());
            assert(texts(parts@) =~= texts(before).push(self@[i as int]));
            assert(self@.take(i + 1) =~= self@.take(i as int).push(self@[i as int]));
            i = i + 1;
        }
        assert(self@.take(self.parts@.len() as int) =~= self@);
        RelPath { parts }
    }
}

impl RelPath {
    /// The path as text, with '/' between the names.
    pub fn text(&self) -> (r: String)
        ensures
            r@ == joined(self@, "/"@),
    {
        join_texts(&self.parts, "/")
    }
}

/// Why a path of a manifest is refused.
#[derive(Debug)]
pub enum PathError {
    /// It starts at a root.
    Absolute(String),
    /// It steps out with "..".
    Traversal(String),
    /// One of its names could mean a drive or a stream.
    InvalidComponent(String),
    /// It names nothing.
    Empty,
}

/// Why a path is refused, as contracts see it.
pub enum PathProblem {
    Absolute(Seq<char>),
    Traversal(Seq<char>),
    InvalidComponent(Seq<char>),
    Empty,
}

impl View for PathError {
    type V = PathProblem;

    open spec fn view(&self) -> PathProblem {
        match *self {
            PathError::Absolute(s) => PathProblem::Absolute(s@),
            PathError::Traversal(s) => PathProblem::Traversal(s@),
            PathError::InvalidComponent(s) => PathProblem::InvalidComponent(s@),
            PathError::Empty => PathProblem::Empty,
        }
    }
}

/// The refusal in words.
pub open spec fn problem_text(p: PathProblem) -> Seq<char> {
    match p {
        PathProblem::Absolute(s) => "absolute path in manifest: "@ + s,
        PathProblem::Traversal(s) => "path traversal in manifest: "@ + s,
        PathProblem::InvalidComponent(s) => "invalid path component: "@ + s,
        PathProblem::Empty => "empty path in manifest"@,
    }
}

impl PathError {
    /// The refusal in words.
    pub fn message(&self) -> (r: String)
        ensures
            r@ == problem_text(self@),
    {
        match self {
            PathError::Absolute(s) => {
                let mut m = "absolute path in manifest: ".to_string();
                m.append(s.as_str());
                m
            },
            PathError::Traversal(s) => {
                let mut m = "path traversal in manifest: ".to_string();
                m.append(s.as_str());
                m
            },
            PathError::InvalidComponent(s) => {
                let mut m = "invalid path component: ".to_string();
                m.append(s.as_str());
                m
            },
            PathError::Empty => "empty path in manifest".to_string(),
        }
    }
}

/// A name that is one step down and nothing else, on every system.
pub open spec fn clean_name(s: Seq<char>) -> bool {
    &&& s.len() > 0
    &&& s != "."@
    &&& s != ".."@
    &&& !s.contains(':')
    &&& !s.contains('/')
    &&& !s.contains('\\')
}

/// The names that a path steps through: empty names and "." are left out, and
/// the first ".." or name with a colon refuses the whole path.
pub open spec fn steps(parts: Seq<Seq<char>>, whole: Seq<char>) -> Result<
    Seq<Seq<char>>,
    PathProblem,
>
    decreases parts.len(),
{
    if parts.len() == 0 {
        Ok(Seq::empty())
    } else {
        let part = parts.last();
        match steps(parts.drop_last(), whole) {
            Err(e) => Err(e),
            Ok(kept) => if part.len() == 0 || part == "."@ {
                Ok(kept)
            } else if part == ".."@ {
                Err(PathProblem::Traversal(whole))
            } else if part.contains(':') {
                Err(PathProblem::InvalidComponent(part))
            } else {
                Ok(kept.push(part))
            },
        }
    }
}

/// What a path of a manifest comes to: both separators count, an absolute path
/// is refused, and so is a path that steps out or names nothing.
pub open spec fn sanitized(rel: Seq<char>) -> Result<Seq<Seq<char>>, PathProblem> {
    let whole = replaced(rel, '\\', '/');
    if whole.len() > 0 && whole[0] == '/' {
        Err(PathProblem::Absolute(whole))
    } else {
        match steps(split(whole, '/'), whole) {
            Err(e) => Err(e),
            Ok(kept) => if kept.len() == 0 {
                Err(PathProblem::Empty)
            } else {
                Ok(kept)
            },
        }
    }
}

fn has_char(s: &str, c: char) -> (r: bool)
    ensures
        r == s@.contains(c),
{
    let chars = to_chars(s);
    let mut i: usize = 0;
    while i < chars.len()
        invariant
            chars@ == s@,
            i <= chars@.len(),
            forall|j: int| 0 <= j < i ==> chars@[j] != c,
        decreases chars@.len() - i,
    {
        if chars[i] == c {
            assert(s@[i as int] == c);
            return true;
        }
        i = i + 1;
    }
    false
}

/// Rejects absolute paths and traversal; normalizes separators.
pub fn sanitize_rel_path(rel: &str) -> (r: Result<RelPath, PathError>)
    ensures
        match sanitized(rel@) {
            Ok(parts) => r matches Ok(p) && p@ == parts,
            Err(problem) => r matches Err(e) && e@ == problem,
        },
{
    let whole = replace_char(rel, '\\', '/');
    let chars = to_chars(whole.as_str());
    if chars.len() > 0 && chars[0] == '/' {
        return Err(PathError::Absolute(whole));
    }
    let pieces = split_text(whole.as_str(), '/');
    let mut out: Vec<String> = Vec::new();
    let mut i: usize = 0;
    let ghost all = texts(pieces@);
    assert(all.take(0) =~= Seq::<Seq<char>>::empty());
    assert(texts(out@) =~= Seq::<Seq<char>>::empty());
    while i < pieces.len()
        invariant
            i <= pieces@.len(),
            all == texts(pieces@),
            all == split(whole@, '/'),
            whole@ == replaced(rel@, '\\', '/'),
            !(whole@.len() > 0 && whole@[0] == '/'),
            steps(all.take(i as int), whole@) == Ok::<_, PathProblem>(texts(out@)),
        decreases pieces@.len() - i,
    {
        let part = pieces[i].as_str();
        assert(all.take(i + 1).drop_last() =~= all.take(i as int));
        assert(all.take(i + 1).last() == part@);
        if part.is_empty() || same(part, ".") {
            assert(steps(all.take(i + 1), whole@) == Ok::<_, PathProblem>(texts(out@)));
        } else if same(part, "..") {
            proof {
                lemma_steps_error(all, whole@, i + 1);
            }
            return Err(PathError::Traversal(whole));
        } else if has_char(part, ':') {
            proof {
                lemma_steps_error(all, whole@, i + 1);
            }
            return Err(PathError::InvalidComponent(part.to_string()));
        } else {
            let ghost before = texts(out@);
            out.push(part.to_string());
            assert(texts(out@) =~= before.push(part@));
        }
        i = i + 1;
    }
    assert(all.take(all.len() as int) =~= all);
    if out.len() == 0 {
        return Err(PathError::Empty);
    }
    Ok(RelPath { parts: out })
}

/// The first refusal stands, whatever follows it.
proof fn lemma_steps_error(parts: Seq<Seq<char>>, whole: Seq<char>, n: int)
    requires
        0 <= n <= parts.len(),
        steps(parts.take(n), whole) is Err,
    ensures
        steps(parts, whole) == steps(parts.take(n), whole),
    decreases parts.len(),
{
    if n == parts.len() {
        assert(parts.take(n) =~= parts);
    } else {
        assert(parts.drop_last().take(n) =~= parts.take(n));
        lemma_steps_error(parts.drop_last(), whole, n);
    }
}

proof fn lemma_steps_clean(parts: Seq<Seq<char>>, whole: Seq<char>)
    requires
        forall|i: int| 0 <= i < parts.len() ==> !(#[trigger] parts[i]).contains('/'),
        forall|i: int| 0 <= i < parts.len() ==> !(#[trigger] parts[i]).contains('\\'),
    ensures
        steps(parts, whole) matches Ok(kept) ==> forall|i: int|
            0 <= i < kept.len() ==> clean_name(#[trigger] kept[i]),
    decreases parts.len(),
{
    if parts.len() > 0 {
        lemma_steps_clean(parts.drop_last(), whole);
    }
}

/// A path that is let through stays below the destination folder: every name in
/// it is one step down, and there is at least one.
pub proof fn lemma_sanitized_stays_inside(rel: Seq<char>)
    ensures
        sanitized(rel) matches Ok(parts) ==> parts.len() > 0 && forall|i: int|
            0 <= i < parts.len() ==> clean_name(#[trigger] parts[i]),
{
    let whole = replaced(rel, '\\', '/');
    let pieces = split(whole, '/');
    crate::text::lemma_split(whole, '/');
    assert forall|i: int| 0 <= i < pieces.len() implies !(#[trigger] pieces[i]).contains('\\') by {
        lemma_split_from(whole, '/', '\\');
    }
    lemma_steps_clean(pieces, whole);
}

/// A character that a text lacks is in none of its pieces.
proof fn lemma_split_from(s: Seq<char>, sep: char, c: char)
    requires
        !s.contains(c),
    ensures
        split(s, sep).len() >= 1,
        forall|i: int| 0 <= i < split(s, sep).len() ==> !(#[trigger] split(s, sep)[i]).contains(c),
    decreases s.len(),
{
    if s.len() > 0 {
        let d = s.drop_last();
        assert(!d.contains(c)) by {
            if d.contains(c) {
                let j = choose|j: int| 0 <= j < d.len() && d[j] == c;
                assert(s[j] == c);
            }
        }
        assert(s.last() != c) by {
            assert(s[s.len() - 1] == s.last());
        }
        lemma_split_from(d, sep, c);
        let before = split(d, sep);
        let parts = split(s, sep);
        if s.last() != sep {
            let n = before.len() - 1;
            assert forall|i: int| 0 <= i < parts.len() implies !(#[trigger] parts[i]).contains(
                c,
            ) by {
                assert(!before[i].contains(c));
                if i == n && parts[i].contains(c) {
                    let j = choose|j: int| 0 <= j < parts[i].len() && parts[i][j] == c;
                    assert(before[i][j] == c);
                }
            }
        } else {
            assert forall|i: int| 0 <= i < parts.len() implies !(#[trigger] parts[i]).contains(
                c,
            ) by {
                if i < before.len() {
                    assert(!before[i].contains(c));
                }
            }
        }
    }
}

// ---- the names beside an incomplete file ----

/// A path whose last name goes on with `suffix`.
pub open spec fn suffixed(path: Seq<Seq<char>>, suffix: Seq<char>) -> Seq<Seq<char>> {
    path.update(path.len() - 1, path.last() + suffix)
}

/// Where the bytes of an incomplete file are.
pub open spec fn part_of(path: Seq<Seq<char>>) -> Seq<Seq<char>> {
    suffixed(path, ".caybulpart"@)
}

/// Where the record of the chunks that are there is.
pub open spec fn meta_of(path: Seq<Seq<char>>) -> Seq<Seq<char>> {
    suffixed(path, ".caybulmeta"@)
}

fn with_last(path: &RelPath, last: String) -> (r: RelPath)
    requires
        path@.len() > 0,
    ensures
        r@ == path@.update(path@.len() - 1, last@),
{
    let mut out = path.clone();
    let n: usize = out.parts.len();
    let ghost before = out.parts@;
    out.parts.pop();
    out.parts.push(last);
    assert(out@ =~= path@.update(path@.len() - 1, last@));
    out
}

fn suffix(path: &RelPath, more: &str) -> (r: RelPath)
    requires
        path@.len() > 0,
    ensures
        r@ == suffixed(path@, more@),
{
    let mut last = path.parts[path.parts.len() - 1].clone();
    last.append(more);
    with_last(path, last)
}

/// Where the bytes of an incomplete file are.
pub fn part_name(path: &RelPath) -> (r: RelPath)
    requires
        path@.len() > 0,
    ensures
        r@ == part_of(path@),
{
    suffix(path, ".caybulpart")
}

/// Where the record of the chunks that are there is.
pub fn meta_name(path: &RelPath) -> (r: RelPath)
    requires
        path@.len() > 0,
    ensures
        r@ == meta_of(path@),
{
    suffix(path, ".caybulmeta")
}

// ---- a name that is not taken ----

/// The position of the last dot of `s`, or -1.
pub open spec fn last_dot(s: Seq<char>) -> int
    decreases s.len(),
{
    if s.len() == 0 {
        -1
    } else if s.last() == '.' {
        s.len() - 1
    } else {
        last_dot(s.drop_last())
    }
}

/// A file name with a number before its extension: "photo.jpg" becomes
/// "photo (1).jpg". A dot that opens the name starts no extension.
pub open spec fn numbered(name: Seq<char>, n: nat) -> Seq<char> {
    let dot = last_dot(name);
    if dot <= 0 {
        name + " ("@ + dec(n) + ")"@
    } else {
        name.take(dot) + " ("@ + dec(n) + ")."@ + name.skip(dot + 1)
    }
}

/// The `n`-th name to try for `path`.
pub open spec fn candidate(path: Seq<Seq<char>>, n: nat) -> Seq<Seq<char>> {
    path.update(path.len() - 1, numbered(path.last(), n))
}

pub proof fn lemma_last_dot(s: Seq<char>)
    ensures
        -1 <= last_dot(s) < s.len(),
    decreases s.len(),
{
    if s.len() > 0 {
        lemma_last_dot(s.drop_last());
    }
}

/// A file name with a number before its extension.
pub fn number_name(name: &str, n: u64) -> (r: String)
    ensures
        r@ == numbered(name@, n as nat),
{
    let chars = to_chars(name);
    let mut at: usize = chars.len();
    assert(chars@.take(at as int) =~= chars@);
    while at > 0 && chars[at - 1] != '.'
        invariant
            at <= chars@.len(),
            last_dot(chars@) == last_dot(chars@.take(at as int)),
        decreases at,
    {
        assert(chars@.take(at as int).drop_last() =~= chars@.take(at - 1));
        at = at - 1;
    }
    if at <= 1 {
        let mut s = name.to_string();
        s.append(" (");
        s.append(dec_u64(n).as_str());
        s.append(")");
        s
    } else {
        let mut s = from_chars(&chars, 0, at - 1);
        assert(s@ =~= name@.take(at - 1));
        s.append(" (");
        s.append(dec_u64(n).as_str());
        s.append(").");
        let ext = from_chars(&chars, at, chars.len());
        assert(ext@ =~= name@.skip(at as int));
        s.append(ext.as_str());
        s
    }
}

/// `taken`, asked about `path`, has given this answer.
pub open spec fn answered<F: Fn(&RelPath) -> bool>(
    taken: F,
    path: Seq<Seq<char>>,
    answer: bool,
) -> bool {
    exists|p: RelPath| p@ == path && #[trigger] call_ensures(taken, (&p,), answer)
}

/// Neither the `n`-th name nor its incomplete file is there.
pub open spec fn name_free<F: Fn(&RelPath) -> bool>(
    taken: F,
    path: Seq<Seq<char>>,
    n: nat,
) -> bool {
    answered(taken, candidate(path, n), false) && answered(
        taken,
        part_of(candidate(path, n)),
        false,
    )
}

/// The `n`-th name or its incomplete file is there.
pub open spec fn name_blocked<F: Fn(&RelPath) -> bool>(
    taken: F,
    path: Seq<Seq<char>>,
    n: nat,
) -> bool {
    answered(taken, candidate(path, n), true) || answered(
        taken,
        part_of(candidate(path, n)),
        true,
    )
}

/// `chosen` is the first numbered name that is free, or `path` itself when none
/// of the 9999 is.
pub open spec fn unique_name<F: Fn(&RelPath) -> bool>(
    taken: F,
    path: Seq<Seq<char>>,
    chosen: Seq<Seq<char>>,
) -> bool {
    ||| exists|n: nat|
        1 <= n < 10000 && chosen == candidate(path, n) && #[trigger] name_free(taken, path, n)
            && forall|k: nat| 1 <= k < n ==> #[trigger] name_blocked(taken, path, k)
    ||| chosen == path && forall|k: nat|
        1 <= k < 10000 ==> #[trigger] name_blocked(taken, path, k)
}

/// "photo.jpg" -> "photo (1).jpg", "photo (2).jpg", ... `taken` tells whether
/// there is something at a path.
pub fn uniquify<F: Fn(&RelPath) -> bool>(path: &RelPath, taken: &F) -> (r: RelPath)
    requires
        path@.len() > 0,
        forall|p: RelPath| call_requires(*taken, (&p,)),
    ensures
        unique_name(*taken, path@, r@),
        r@.len() == path@.len(),
{
    let mut n: u64 = 1;
    while n < 10000
        invariant
            1 <= n <= 10000,
            path@.len() > 0,
            forall|p: RelPath| call_requires(*taken, (&p,)),
            forall|k: nat| 1 <= k < n ==> #[trigger] name_blocked(*taken, path@, k),
        decreases 10000 - n,
    {
        let name = number_name(path.parts[path.parts.len() - 1].as_str(), n);
        let next = with_last(path, name);
        assert(next@ == candidate(path@, n as nat));
        let there = taken(&next);
        assert(answered(*taken, candidate(path@, n as nat), there));
        if !there {
            let part = part_name(&next);
            let part_there = taken(&part);
            assert(answered(*taken, part_of(candidate(path@, n as nat)), part_there));
            if !part_there {
                assert(name_free(*taken, path@, n as nat));
                return next;
            }
        }
        assert(name_blocked(*taken, path@, n as nat));
        n = n + 1;
    }
    path.clone()
}

} // verus!
