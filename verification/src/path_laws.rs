//! What holds of normal forms: they are made of plain components, they are
//! their own normal form, and joining loses nothing.

use vstd::prelude::*;
use crate::path::{cur_dir, has_root, is_normal, is_plain_part, is_rooted, join, normal_parts, normalized, parent_dir, pieces, resolve, root_part, start_of, step};

verus! {

/// No piece of a path holds a separator.
pub proof fn lemma_pieces_have_no_separator(s: Seq<char>)
    ensures
        pieces(s).len() >= 1,
        forall|k: int| 0 <= k < pieces(s).len() ==> !(#[trigger] pieces(s)[k]).contains('/'),
    decreases s.len(),
{
    if s.len() > 0 {
        lemma_pieces_have_no_separator(s.drop_last());
        let before = pieces(s.drop_last());
        if s.last() != '/' {
            let grown = before.last().push(s.last());
            assert(!grown.contains('/')) by {
                if grown.contains('/') {
                    let i = choose|i: int| 0 <= i < grown.len() && grown[i] == '/';
                    assert(before.last()[i] == '/');
                    assert(before[before.len() - 1].contains('/'));
                }
            }
        }
    }
}

/// Normalisation keeps components in normal form.
pub proof fn lemma_resolve_is_normal(start: Seq<Seq<char>>, ps: Seq<Seq<char>>)
    requires
        is_normal(start),
        forall|k: int| 0 <= k < ps.len() ==> !(#[trigger] ps[k]).contains('/'),
    ensures
        resolve(start, ps) matches Some(r) ==> is_normal(r),
    decreases ps.len(),
{
    if ps.len() > 0 {
        lemma_resolve_is_normal(start, ps.drop_last());
        match resolve(start, ps.drop_last()) {
            Some(kept) => {
                let piece = ps.last();
                assert(!ps[ps.len() - 1].contains('/'));
                if piece.len() == 0 || piece == cur_dir() {
                } else if piece == parent_dir() {
                    if kept.len() > 0 {
                        let r = kept.drop_last();
                        assert forall|i: int| 0 <= i < r.len() implies (#[trigger] is_plain_part(
                            r[i],
                        ) || (i == 0 && r[i] == root_part())) by {
                            assert(is_plain_part(kept[i]) || (i == 0 && kept[i] == root_part()));
                        }
                    }
                } else {
                    let r = kept.push(piece);
                    assert forall|i: int| 0 <= i < r.len() implies (#[trigger] is_plain_part(
                        r[i],
                    ) || (i == 0 && r[i] == root_part())) by {
                        if i < kept.len() {
                            assert(is_plain_part(kept[i]) || (i == 0 && kept[i] == root_part()));
                        }
                    }
                }
            },
            None => {},
        }
    }
}

/// The normalised components of any path are in normal form.
pub proof fn lemma_normal_parts_is_normal(s: Seq<char>)
    ensures
        normal_parts(s) matches Some(r) ==> is_normal(r),
{
    lemma_pieces_have_no_separator(s);
    let start = start_of(s);
    assert forall|i: int| 0 <= i < start.len() implies (#[trigger] is_plain_part(start[i]) || (i
        == 0 && start[i] == root_part())) by {}
    lemma_resolve_is_normal(start, pieces(s));
}

/// Appending separator-free text to a path extends its last piece.
pub proof fn lemma_pieces_append(a: Seq<char>, c: Seq<char>)
    requires
        !c.contains('/'),
    ensures
        pieces(a).len() >= 1,
        pieces(a + c) == pieces(a).drop_last().push(pieces(a).last() + c),
    decreases c.len(),
{
    lemma_pieces_have_no_separator(a);
    if c.len() == 0 {
        assert(a + c =~= a);
        assert(pieces(a).last() + c =~= pieces(a).last());
        assert(pieces(a).drop_last().push(pieces(a).last()) =~= pieces(a));
    } else {
        let c0 = c.drop_last();
        assert(!c0.contains('/')) by {
            if c0.contains('/') {
                let i = choose|i: int| 0 <= i < c0.len() && c0[i] == '/';
                assert(c[i] == '/');
            }
        }
        assert(c[c.len() - 1] != '/');
        lemma_pieces_append(a, c0);
        assert((a + c).drop_last() =~= a + c0);
        assert((a + c).last() == c.last());
        let before = pieces(a + c0);
        assert(before.last().push(c.last()) =~= pieces(a).last() + c);
        assert(before.drop_last() =~= pieces(a).drop_last());
    }
}

/// Normalising one more piece is one more step.
pub proof fn lemma_resolve_push(start: Seq<Seq<char>>, ps: Seq<Seq<char>>, piece: Seq<char>)
    ensures
        resolve(start, Seq::<Seq<char>>::empty()) == Some(start),
        resolve(start, ps.push(piece)) == step(resolve(start, ps), piece),
{
    assert(ps.push(piece).drop_last() =~= ps);
}

/// What joining says of the joined string, and that normalising it gives
/// the components back.
pub proof fn lemma_join_roundtrip(parts: Seq<Seq<char>>)
    requires
        is_normal(parts),
    ensures
        parts.len() > 0 ==> join(parts).len() > 0,
        has_root(join(parts)) == is_rooted(parts),
        normal_parts(join(parts)) == Some(parts),
    decreases parts.len(),
{
    let empty = Seq::<char>::empty();
    let none = Seq::<Seq<char>>::empty();
    assert(pieces(empty) =~= none.push(empty));
    if parts.len() == 0 {
        assert(join(parts) =~= empty);
        lemma_resolve_push(none, none, empty);
        assert(parts =~= none);
    } else {
        let ps = parts.drop_last();
        let c = parts.last();
        assert(is_plain_part(parts[parts.len() - 1]) || (parts.len() - 1 == 0 && c == root_part()));
        assert forall|i: int| 0 <= i < ps.len() implies (#[trigger] is_plain_part(ps[i]) || (i == 0
            && ps[i] == root_part())) by {
            assert(is_plain_part(parts[i]) || (i == 0 && parts[i] == root_part()));
        }
        lemma_join_roundtrip(ps);
        let head = join(ps);
        assert(ps.push(c) =~= parts);
        if ps.len() == 0 {
            assert(head =~= empty);
            assert(join(parts) =~= c);
            if c == root_part() {
                assert(c.drop_last() =~= empty);
                assert(c.last() == '/');
                assert(pieces(c) == pieces(empty).push(empty));
                let start = seq![root_part()];
                assert(start_of(c) == start);
                lemma_resolve_push(start, none, empty);
                lemma_resolve_push(start, none.push(empty), empty);
                assert(start =~= parts);
            } else {
                assert(c[0] != '/') by {
                    if c[0] == '/' {
                        assert(c.contains('/'));
                    }
                }
                lemma_pieces_append(empty, c);
                assert(empty + c =~= c);
                assert(none.push(empty).drop_last() =~= none);
                assert(pieces(c) == none.push(c));
                assert(start_of(c) == none);
                lemma_resolve_push(none, none, c);
            }
        } else {
            assert(is_plain_part(c));
            assert(head.len() > 0);
            assert(c.len() > 0);
            assert(parts[0] == ps[0]);
            lemma_pieces_have_no_separator(head);
            let hp = pieces(head);
            if head.last() == '/' {
                let whole = head + c;
                assert(join(parts) == whole);
                assert(whole[0] == head[0]);
                assert(start_of(whole) == start_of(head));
                lemma_pieces_append(head, c);
                assert(hp == pieces(head.drop_last()).push(empty));
                assert(hp.last() =~= empty);
                assert(hp.last() + c =~= c);
                assert(pieces(whole) == hp.drop_last().push(c));
                assert(hp.drop_last().push(empty) =~= hp);
                lemma_resolve_push(start_of(head), hp.drop_last(), empty);
                lemma_resolve_push(start_of(head), hp.drop_last(), c);
                assert(resolve(start_of(head), hp.drop_last()) == Some(ps));
            } else {
                let sep = head.push('/');
                let whole = sep + c;
                assert(join(parts) == whole);
                assert(whole[0] == head[0]);
                assert(start_of(whole) == start_of(head));
                assert(sep.drop_last() =~= head);
                assert(pieces(sep) == hp.push(empty));
                lemma_pieces_append(sep, c);
                assert(pieces(sep).last() + c =~= c);
                assert(pieces(sep).drop_last() =~= hp);
                assert(pieces(whole) == hp.push(c));
                lemma_resolve_push(start_of(head), hp, c);
            }
        }
    }
}

/// Normalising is idempotent: a normal form is its own normal form.
pub proof fn lemma_normalized_is_idempotent(s: Seq<char>)
    ensures
        normalized(s) matches Some(t) ==> normalized(t) == Some(t),
{
    lemma_normal_parts_is_normal(s);
    if let Some(parts) = normal_parts(s) {
        lemma_join_roundtrip(parts);
    }
}

/// Two paths have the same normal form exactly when their normalised
/// components are the same.
pub proof fn lemma_normal_form_names_components(a: Seq<char>, b: Seq<char>)
    requires
        normal_parts(a) is Some,
        normal_parts(b) is Some,
    ensures
        (normalized(a) == normalized(b)) == (normal_parts(a) == normal_parts(b)),
{
    lemma_normal_parts_is_normal(a);
    lemma_normal_parts_is_normal(b);
    lemma_join_roundtrip(normal_parts(a).unwrap());
    lemma_join_roundtrip(normal_parts(b).unwrap());
}

} // verus!
