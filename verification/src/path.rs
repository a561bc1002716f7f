//! Relative paths as sequences of components, and their normal form.
//!
//! A path is split at every `/`.  Empty pieces and `.` are dropped, `..`
//! removes the component before it, and every other piece is kept.  A path
//! that begins with `/` starts from the root component, written `/`.

use vstd::prelude::*;
use crate::text::{
    append_chars, chars_of, copy_chars, lemma_split_nonempty, rows, same_chars, split_on,
    string_of,
};

verus! {

/// Why a path has no normal form.
#[derive(Debug, Clone, Copy, PartialEq, Eq)]
pub enum PathError {
    /// A `..` had no component left to remove.
    EscapesRoot,
}

/// The root component.
pub open spec fn root_part() -> Seq<char> {
    seq!['/']
}

/// The piece that names the current directory.
pub open spec fn cur_dir() -> Seq<char> {
    seq!['.']
}

/// The piece that names the parent directory.
pub open spec fn parent_dir() -> Seq<char> {
    seq!['.', '.']
}

/// Whether the path begins at the root.
pub open spec fn has_root(s: Seq<char>) -> bool {
    s.len() > 0 && s[0] == '/'
}

/// The pieces between the separators of `s`; there is always at least one.
pub open spec fn pieces(s: Seq<char>) -> Seq<Seq<char>> {
    split_on(s, '/')
}

/// One step of normalisation: what the retained components are after `piece`.
pub open spec fn step(stack: Option<Seq<Seq<char>>>, piece: Seq<char>) -> Option<Seq<Seq<char>>> {
    match stack {
        None => None,
        Some(kept) => if piece.len() == 0 || piece == cur_dir() {
            Some(kept)
        } else if piece == parent_dir() {
            if kept.len() == 0 {
                None
            } else {
                Some(kept.drop_last())
            }
        } else {
            Some(kept.push(piece))
        },
    }
}

/// The components retained after all of `ps`, starting from `start`;
/// `None` once a `..` found nothing to remove.
pub open spec fn resolve(start: Seq<Seq<char>>, ps: Seq<Seq<char>>) -> Option<Seq<Seq<char>>>
    decreases ps.len(),
{
    if ps.len() == 0 {
        Some(start)
    } else {
        step(resolve(start, ps.drop_last()), ps.last())
    }
}

/// The components a path starts with before any piece is read.
pub open spec fn start_of(s: Seq<char>) -> Seq<Seq<char>> {
    if has_root(s) {
        seq![root_part()]
    } else {
        Seq::<Seq<char>>::empty()
    }
}

/// The normalised components of `s`, or `None` if `s` escapes its root.
pub open spec fn normal_parts(s: Seq<char>) -> Option<Seq<Seq<char>>> {
    resolve(start_of(s), pieces(s))
}

/// The components written as one string, a `/` between neighbours.
pub open spec fn join(parts: Seq<Seq<char>>) -> Seq<char>
    decreases parts.len(),
{
    if parts.len() == 0 {
        Seq::<char>::empty()
    } else {
        let head = join(parts.drop_last());
        if head.len() == 0 || head.last() == '/' {
            head + parts.last()
        } else {
            head.push('/') + parts.last()
        }
    }
}

/// The normal form of `s` as a string, or `None` if `s` escapes its root.
pub open spec fn normalized(s: Seq<char>) -> Option<Seq<char>> {
    match normal_parts(s) {
        Some(parts) => Some(join(parts)),
        None => None,
    }
}

/// A component that normalisation keeps as it is.
pub open spec fn is_plain_part(p: Seq<char>) -> bool {
    &&& p.len() > 0
    &&& !p.contains('/')
    &&& p != cur_dir()
    &&& p != parent_dir()
}

/// Components in normal form: plain ones, after at most one leading root.
pub open spec fn is_normal(parts: Seq<Seq<char>>) -> bool {
    forall|i: int|
        0 <= i < parts.len() ==> (#[trigger] is_plain_part(parts[i]) || (i == 0 && parts[i]
            == root_part()))
}

/// A path in normal form.
pub struct NormalPath {
    parts: Vec<Vec<char>>,
}

impl View for NormalPath {
    type V = Seq<Seq<char>>;

    closed spec fn view(&self) -> Seq<Seq<char>> {
        rows(self.parts@)
    }
}

proof fn lemma_pieces_take_next(s: Seq<char>, i: int)
    requires
        0 <= i < s.len(),
    ensures
        pieces(s.take(i)).len() >= 1,
        s[i] == '/' ==> pieces(s.take(i + 1)) == pieces(s.take(i)).push(Seq::<char>::empty()),
        s[i] != '/' ==> pieces(s.take(i + 1)) == pieces(s.take(i)).drop_last().push(
            pieces(s.take(i)).last().push(s[i]),
        ),
{
    lemma_split_nonempty(s.take(i), '/');
    assert(s.take(i + 1).drop_last() =~= s.take(i));
}

/// Applies one piece to the retained components; `false` if it escapes.
fn apply_piece(stack: &mut Vec<Vec<char>>, piece: Vec<char>) -> (ok: bool)
    ensures
        ok ==> step(Some(rows(old(stack)@)), piece@) == Some(rows(final(stack)@)),
        !ok ==> step(Some(rows(old(stack)@)), piece@) is None,
{
    let ghost before = rows(stack@);
    if piece.len() == 0 {
        return true;
    }
    if piece.len() == 1 && piece[0] == '.' {
        assert(piece@ =~= cur_dir());
        return true;
    }
    if piece.len() == 2 && piece[0] == '.' && piece[1] == '.' {
        assert(piece@ =~= parent_dir());
        if stack.len() == 0 {
            return false;
        }
        stack.pop();
        assert(rows(stack@) =~= before.drop_last());
        return true;
    }
    assert(piece@ != cur_dir()) by {
        if piece@ == cur_dir() {
            assert(piece@.len() == 1 && piece@[0] == '.');
        }
    }
    assert(piece@ != parent_dir()) by {
        if piece@ == parent_dir() {
            assert(piece@.len() == 2 && piece@[0] == '.' && piece@[1] == '.');
        }
    }
    stack.push(piece);
    assert(rows(stack@) =~= before.push(piece@));
    true
}

impl NormalPath {
    /// The path with no components, which names the root of the tree.
    pub fn empty() -> (p: NormalPath)
        ensures
            p@ == Seq::<Seq<char>>::empty(),
    {
        let p = NormalPath { parts: Vec::new() };
        assert(p@ =~= Seq::<Seq<char>>::empty());
        p
    }

    /// Normalises `path`, or reports that it escapes its root.
    pub fn parse(path: &str) -> (r: Result<NormalPath, PathError>)
        ensures
            match r {
                Ok(p) => normal_parts(path@) == Some(p@),
                Err(e) => normal_parts(path@) is None,
            },
    {
        let chars = chars_of(path);
        let mut stack: Vec<Vec<char>> = Vec::new();
        if chars.len() > 0 && chars[0] == '/' {
            let mut root: Vec<char> = Vec::new();
            root.push('/');
            assert(root@ =~= root_part());
            stack.push(root);
        }
        assert(rows(stack@) =~= start_of(path@));
        let mut cur: Vec<char> = Vec::new();
        let mut escaped = false;
        let mut i: usize = 0;
        assert(path@.take(0) =~= Seq::<char>::empty());
        while i < chars.len()
            invariant
                i <= chars.len(),
                chars@ == path@,
                pieces(path@.take(i as int)).len() >= 1,
                pieces(path@.take(i as int)).last() == cur@,
                resolve(start_of(path@), pieces(path@.take(i as int)).drop_last()) == (if escaped {
                    None
                } else {
                    Some(rows(stack@))
                }),
            decreases chars.len() - i,
        {
            let c = chars[i];
            proof {
                lemma_pieces_take_next(path@, i as int);
            }
            let ghost prev = pieces(path@.take(i as int));
            if c == '/' {
                assert(prev.push(Seq::<char>::empty()).drop_last() =~= prev);
                if !escaped {
                    let ok = apply_piece(&mut stack, cur);
                    escaped = !ok;
                }
                cur = Vec::new();
            } else {
                cur.push(c);
                assert(prev.drop_last().push(prev.last().push(c)).drop_last() =~= prev.drop_last());
            }
            i += 1;
        }
        assert(path@.take(i as int) =~= path@);
        if escaped {
            return Err(PathError::EscapesRoot);
        }
        let ok = apply_piece(&mut stack, cur);
        if !ok {
            return Err(PathError::EscapesRoot);
        }
        Ok(NormalPath { parts: stack })
    }

    /// The number of components.
    pub fn len(&self) -> (n: usize)
        ensures
            n == self@.len(),
    {
        self.parts.len()
    }

    /// Whether the path begins at the root.
    pub fn is_rooted(&self) -> (b: bool)
        ensures
            b == is_rooted(self@),
    {
        if self.parts.len() == 0 {
            return false;
        }
        let first = &self.parts[0];
        let b = first.len() == 1 && first[0] == '/';
        proof {
            assert(self@[0] == first@);
            if b {
                assert(first@ =~= root_part());
            } else if first@ == root_part() {
                assert(first@.len() == 1 && first@[0] == '/');
            }
        }
        b
    }

    /// Whether the first `k` components of `self` are exactly `other`.
    pub fn prefix_is(&self, k: usize, other: &NormalPath) -> (b: bool)
        requires
            k <= self@.len(),
        ensures
            b == (self@.take(k as int) == other@),
    {
        if other.parts.len() != k {
            assert(self@.take(k as int).len() != other@.len());
            return false;
        }
        let mut j: usize = 0;
        while j < k
            invariant
                j <= k,
                k <= self.parts.len(),
                other.parts.len() == k,
                forall|m: int| 0 <= m < j ==> self@[m] == other@[m],
            decreases k - j,
        {
            if !same_chars(&self.parts[j], &other.parts[j]) {
                assert(self@.take(k as int)[j as int] != other@[j as int]);
                return false;
            }
            j += 1;
        }
        assert(self@.take(k as int) =~= other@);
        true
    }

    /// `other` placed under `self`; a rooted `other` stays as it is.
    pub fn join(&self, other: &NormalPath) -> (p: NormalPath)
        ensures
            p@ == join_paths(self@, other@),
    {
        let mut parts: Vec<Vec<char>> = Vec::new();
        if !other.is_rooted() {
            let mut i: usize = 0;
            while i < self.parts.len()
                invariant
                    i <= self.parts.len(),
                    rows(parts@) == self@.take(i as int),
                decreases self.parts.len() - i,
            {
                let ghost before = rows(parts@);
                let part = copy_chars(&self.parts[i]);
                parts.push(part);
                assert(rows(parts@) =~= before.push(self@[i as int]));
                assert(before.push(self@[i as int]) =~= self@.take(i as int + 1));
                i += 1;
            }
            assert(self@.take(i as int) =~= self@);
        }
        let ghost base = rows(parts@);
        let mut j: usize = 0;
        while j < other.parts.len()
            invariant
                j <= other.parts.len(),
                rows(parts@) == base + other@.take(j as int),
            decreases other.parts.len() - j,
        {
            let ghost before = rows(parts@);
            let part = copy_chars(&other.parts[j]);
            parts.push(part);
            assert(rows(parts@) =~= before.push(other@[j as int]));
            assert(before.push(other@[j as int]) =~= base + other@.take(j as int + 1));
            j += 1;
        }
        assert(other@.take(j as int) =~= other@);
        assert(Seq::<Seq<char>>::empty() + other@ =~= other@);
        NormalPath { parts }
    }

    /// The path written as a string, a `/` between neighbouring components.
    pub fn to_string(&self) -> (s: String)
        ensures
            s@ == join(self@),
    {
        let mut out: Vec<char> = Vec::new();
        let mut i: usize = 0;
        assert(self@.take(0) =~= Seq::<Seq<char>>::empty());
        while i < self.parts.len()
            invariant
                i <= self.parts.len(),
                out@ == join(self@.take(i as int)),
            decreases self.parts.len() - i,
        {
            let n = out.len();
            if n > 0 && out[n - 1] != '/' {
                out.push('/');
            }
            let ghost head = out@;
            let part = &self.parts[i];
            let mut j: usize = 0;
            while j < part.len()
                invariant
                    j <= part.len(),
                    out@ == head + part@.take(j as int),
                decreases part.len() - j,
            {
                out.push(part[j]);
                assert(out@ =~= head + part@.take(j as int + 1));
                j += 1;
            }
            proof {
                assert(part@.take(j as int) =~= part@);
                assert(self@.take(i as int + 1).drop_last() =~= self@.take(i as int));
                assert(self@.take(i as int + 1).last() == part@);
            }
            i += 1;
        }
        assert(self@.take(i as int) =~= self@);
        string_of(&out)
    }
}

/// Whether the components begin with the root.
pub open spec fn is_rooted(parts: Seq<Seq<char>>) -> bool {
    parts.len() > 0 && parts[0] == root_part()
}

/// `b` placed under `a`; a rooted `b` stays as it is.
pub open spec fn join_paths(a: Seq<Seq<char>>, b: Seq<Seq<char>>) -> Seq<Seq<char>> {
    if is_rooted(b) {
        b
    } else {
        a + b
    }
}

/// `tail` placed under `head` as text: `tail` itself if it is rooted or
/// `head` is empty, else `head`, a separator unless `head` ends in one, and
/// `tail`.
pub open spec fn joined_text(head: Seq<char>, tail: Seq<char>) -> Seq<char> {
    if has_root(tail) {
        tail
    } else if head.len() == 0 || head.last() == '/' {
        head + tail
    } else {
        head.push('/') + tail
    }
}

/// `tail` placed under `head`, as text.
pub fn join_text(head: &str, tail: &str) -> (r: String)
    ensures
        r@ == joined_text(head@, tail@),
{
    let tail_chars = chars_of(tail);
    let mut out: Vec<char> = Vec::new();
    if !(tail_chars.len() > 0 && tail_chars[0] == '/') {
        out = chars_of(head);
        let n = out.len();
        if n > 0 && out[n - 1] != '/' {
            out.push('/');
        }
    }
    append_chars(&mut out, &tail_chars);
    assert(Seq::<char>::empty() + tail@ =~= tail@);
    string_of(&out)
}

/// Collapses the `.` and `..` components of `path`.
///
/// Returns the normal form, or `PathError::EscapesRoot` when a `..` has no
/// component before it to remove.
pub fn simplify(path: &str) -> (r: Result<String, PathError>)
    ensures
        match r {
            Ok(p) => normalized(path@) == Some(p@),
            Err(e) => normalized(path@) is None,
        },
{
    match NormalPath::parse(path) {
        Ok(p) => Ok(p.to_string()),
        Err(e) => Err(e),
    }
}

} // verus!
