//! The content hash of a set of files.
//!
//! The files are put in the order of their paths, each path once, and the
//! bytes of their contents, in that order, are hashed as one stream.  No
//! path, size or other metadata enters the hash.

use vstd::prelude::*;
use crate::order::{Relation, compare, lex_lt};
use crate::path::has_root;
use crate::text::{chars_of, rows, split_chars, split_on, string_of};

verus! {

/// A file to hash: its path as it was found, and what it holds.
#[derive(Debug, PartialEq, Eq)]
pub struct SourceFile {
    pub path: String,
    pub contents: Vec<u8>,
}

/// A file as the hash sees it.
pub ghost struct FileView {
    pub path: Seq<char>,
    pub contents: Seq<u8>,
}

impl View for SourceFile {
    type V = FileView;

    open spec fn view(&self) -> FileView {
        FileView { path: self.path@, contents: self.contents@ }
    }
}

/// What the files in a vector are.
pub open spec fn file_views(files: Seq<SourceFile>) -> Seq<FileView> {
    files.map_values(|f: SourceFile| f@)
}

/// The numbers that stand for the characters of a name: each character's
/// code plus one, so that zero can end the name.
pub open spec fn name_codes(name: Seq<char>) -> Seq<u32> {
    name.map_values(|c: char| (c as u32 + 1) as u32)
}

/// The numbers that stand for one piece of a path: nothing for an empty
/// piece or a `.` that does not lead a relative path, 2 for a leading `.`,
/// 3 for `..`, and for a name 4, its characters and a closing 0.
pub open spec fn piece_code(piece: Seq<char>, leads_relative: bool) -> Seq<u32> {
    if piece.len() == 0 {
        Seq::<u32>::empty()
    } else if piece == seq!['.'] {
        if leads_relative {
            seq![2u32]
        } else {
            Seq::<u32>::empty()
        }
    } else if piece == seq!['.', '.'] {
        seq![3u32]
    } else {
        seq![4u32] + name_codes(piece) + seq![0u32]
    }
}

/// The numbers that stand for the pieces `ps` of a path, in order.
pub open spec fn pieces_code(ps: Seq<Seq<char>>, relative: bool) -> Seq<u32>
    decreases ps.len(),
{
    if ps.len() == 0 {
        Seq::<u32>::empty()
    } else {
        pieces_code(ps.drop_last(), relative) + piece_code(ps.last(), relative && ps.len() == 1)
    }
}

/// The key by which a path is ordered and told from others.
///
/// It stands for the components of the path as it is written: 1 for a
/// leading root, then each piece between separators.  Paths with the same
/// components have the same key, and keys in dictionary order put paths in
/// the order of their components: the root before `.`, `.` before `..`,
/// `..` before every name, names by their characters, and a path before
/// every path that extends it.
pub open spec fn sort_key(path: Seq<char>) -> Seq<u32> {
    (if has_root(path) {
        seq![1u32]
    } else {
        Seq::<u32>::empty()
    }) + pieces_code(split_on(path, '/'), !has_root(path))
}

/// The key of the file at index `i`.
pub open spec fn key_at(files: Seq<FileView>, i: int) -> Seq<u32> {
    sort_key(files[i].path)
}

/// The keys at the indices `order` are strictly increasing.
pub open spec fn keys_increase(files: Seq<FileView>, order: Seq<int>) -> bool {
    forall|k: int, m: int|
        #![trigger order[k], order[m]]
        0 <= k < m < order.len() ==> lex_lt(key_at(files, order[k]), key_at(files, order[m]))
}

/// No file before index `i` has the key of the file at `i`.
pub open spec fn is_first_of_key(files: Seq<FileView>, i: int) -> bool {
    forall|e: int| 0 <= e < i ==> #[trigger] key_at(files, e) != key_at(files, i)
}

/// The key of the file at `i` is the key of a file that `order` names.
pub open spec fn is_covered(files: Seq<FileView>, order: Seq<int>, i: int) -> bool {
    exists|k: int| 0 <= k < order.len() && key_at(files, #[trigger] order[k]) == key_at(files, i)
}

/// `order` names, in the order of their keys, the first file of every key
/// among the first `n` files.
pub open spec fn is_hash_order(files: Seq<FileView>, n: int, order: Seq<int>) -> bool {
    &&& forall|k: int| 0 <= k < order.len() ==> 0 <= #[trigger] order[k] < n
    &&& keys_increase(files, order)
    &&& forall|k: int| 0 <= k < order.len() ==> is_first_of_key(files, #[trigger] order[k])
    &&& forall|i: int| 0 <= i < n ==> #[trigger] is_covered(files, order, i)
}

/// `order`, a list of indices into `files` in the order of their keys,
/// after index `j` is put in its place; an index whose key is there already
/// is left out.
pub open spec fn insert_index(files: Seq<FileView>, order: Seq<int>, j: int) -> Seq<int>
    decreases order.len(),
{
    if order.len() == 0 {
        seq![j]
    } else if lex_lt(key_at(files, order.last()), key_at(files, j)) {
        order.push(j)
    } else if key_at(files, order.last()) == key_at(files, j) {
        order
    } else {
        insert_index(files, order.drop_last(), j).push(order.last())
    }
}

/// The order in which the first `n` files are hashed.
pub open spec fn hash_order_upto(files: Seq<FileView>, n: nat) -> Seq<int>
    decreases n,
{
    if n == 0 {
        Seq::<int>::empty()
    } else {
        insert_index(files, hash_order_upto(files, (n - 1) as nat), n - 1)
    }
}

/// The order in which `files` are hashed: the indices of the files in the
/// order of their keys, where of several files with one key only the first
/// is kept.  It is the only list of indices that `is_hash_order` holds of.
pub open spec fn hash_order(files: Seq<FileView>) -> Seq<int> {
    hash_order_upto(files, files.len())
}

/// The contents of the files at the indices `order`, one after the other.
pub open spec fn stream(files: Seq<FileView>, order: Seq<int>) -> Seq<u8>
    decreases order.len(),
{
    if order.len() == 0 {
        Seq::<u8>::empty()
    } else {
        stream(files, order.drop_last()) + files[order.last()].contents
    }
}

/// The bytes that are hashed for `files`.
pub open spec fn hashed_bytes(files: Seq<FileView>) -> Seq<u8> {
    stream(files, hash_order(files))
}

/// The BLAKE3 hash of `input`, as `blake3::hash` computes it.
pub uninterp spec fn blake3_digest(input: Seq<u8>) -> Seq<u8>;

/// The content hash of `files`.
pub open spec fn files_digest(files: Seq<FileView>) -> Seq<u8> {
    blake3_digest(hashed_bytes(files))
}

/// Calls `blake3::hash` and copies the hash out.
///
/// Trusted: the result is the hash that `blake3_digest` names, and it is
/// 32 bytes long, the crate's `OUT_LEN`.
#[verifier::external_body]
fn blake3_of(input: &Vec<u8>) -> (digest: Vec<u8>)
    ensures
        digest@ == blake3_digest(input@),
        digest@.len() == 32,
{
    blake3::hash(input.as_slice()).as_bytes().to_vec()
}

/// Computes the key of a path.
pub fn sort_key_of(path: &str) -> (key: Vec<u32>)
    ensures
        key@ == sort_key(path@),
{
    let chars = chars_of(path);
    let rooted = chars.len() > 0 && chars[0] == '/';
    let ps = split_chars(&chars, '/');
    let mut key: Vec<u32> = Vec::new();
    if rooted {
        key.push(1);
    }
    let ghost head = key@;
    let ghost all = rows(ps@);
    let mut i: usize = 0;
    assert(all.take(0) =~= Seq::<Seq<char>>::empty());
    assert(key@ =~= head + pieces_code(all.take(0), !rooted));
    while i < ps.len()
        invariant
            i <= ps.len(),
            all == rows(ps@),
            key@ == head + pieces_code(all.take(i as int), !rooted),
        decreases ps.len() - i,
    {
        let piece = &ps[i];
        let ghost upto = all.take(i as int + 1);
        let ghost before = key@;
        proof {
            assert(upto.drop_last() =~= all.take(i as int));
            assert(upto.last() == piece@);
        }
        let ghost code = piece_code(piece@, !rooted && i == 0);
        if piece.len() == 0 {
            assert(before + code =~= before);
        } else if piece.len() == 1 && piece[0] == '.' {
            assert(piece@ =~= seq!['.']);
            if !rooted && i == 0 {
                key.push(2);
                assert(key@ =~= before + code);
            } else {
                assert(before + code =~= before);
            }
        } else if piece.len() == 2 && piece[0] == '.' && piece[1] == '.' {
            assert(piece@ =~= seq!['.', '.']);
            key.push(3);
            assert(key@ =~= before + code);
        } else {
            assert(piece@ != seq!['.']) by {
                if piece@ == seq!['.'] {
                    assert(piece@.len() == 1 && piece@[0] == '.');
                }
            }
            assert(piece@ != seq!['.', '.']) by {
                if piece@ == seq!['.', '.'] {
                    assert(piece@.len() == 2 && piece@[0] == '.' && piece@[1] == '.');
                }
            }
            key.push(4);
            let mut j: usize = 0;
            while j < piece.len()
                invariant
                    j <= piece.len(),
                    key@ == before + seq![4u32] + name_codes(piece@.take(j as int)),
                decreases piece.len() - j,
            {
                let c = piece[j];
                let n: u32 = c as u32;
                proof {
                    vstd::utf8::char_is_scalar(c);
                }
                assert(n <= 0x10FFFF);
                key.push(n + 1);
                assert(key@ =~= before + seq![4u32] + name_codes(piece@.take(j as int + 1)));
                j += 1;
            }
            assert(piece@.take(j as int) =~= piece@);
            key.push(0);
            assert(key@ =~= before + code);
        }
        assert(key@ =~= head + (pieces_code(upto.drop_last(), !rooted) + code));
        i += 1;
    }
    assert(all.take(i as int) =~= all);
    key
}

/// The indices in a vector, as numbers.
pub open spec fn indices(picked: Seq<usize>) -> Seq<int> {
    picked.map_values(|i: usize| i as int)
}

/// Appends the bytes of `more` to `out`.
fn append_bytes(out: &mut Vec<u8>, more: &Vec<u8>)
    ensures
        final(out)@ == old(out)@ + more@,
{
    let ghost base = out@;
    let mut i: usize = 0;
    assert(out@ =~= base + more@.take(0));
    while i < more.len()
        invariant
            i <= more.len(),
            out@ == base + more@.take(i as int),
        decreases more.len() - i,
    {
        out.push(more[i]);
        assert(out@ =~= base + more@.take(i as int + 1));
        i += 1;
    }
    assert(more@.take(i as int) =~= more@);
}

/// Putting `j` into `order` leaves alone every index at or after `pos`
/// when the key of `j` comes before all of their keys.
proof fn lemma_insert_skips_later(files: Seq<FileView>, order: Seq<int>, j: int, pos: int)
    requires
        0 <= pos <= order.len(),
        forall|p: int| pos <= p < order.len() ==> lex_lt(key_at(files, j), key_at(files, order[p])),
    ensures
        insert_index(files, order, j) == insert_index(files, order.take(pos), j) + order.skip(pos),
    decreases order.len() - pos,
{
    if pos == order.len() {
        assert(order.take(pos) =~= order);
        assert(insert_index(files, order, j) + order.skip(pos) =~= insert_index(files, order, j));
    } else {
        let last = order.last();
        assert(lex_lt(key_at(files, j), key_at(files, order[order.len() - 1])));
        crate::order::lemma_lex_asymmetric(key_at(files, j), key_at(files, last));
        let shorter = order.drop_last();
        assert forall|p: int| pos <= p < shorter.len() implies lex_lt(
            key_at(files, j),
            key_at(files, shorter[p]),
        ) by {
            assert(shorter[p] == order[p]);
        }
        lemma_insert_skips_later(files, shorter, j, pos);
        assert(shorter.take(pos) =~= order.take(pos));
        assert((insert_index(files, shorter.take(pos), j) + shorter.skip(pos)).push(last)
            =~= insert_index(files, order.take(pos), j) + order.skip(pos));
    }
}

/// The content hash of `files`: the BLAKE3 hash of their contents, taken in
/// the order of their paths, each path once.
pub fn hash_files(files: &Vec<SourceFile>) -> (digest: Vec<u8>)
    ensures
        digest@ == files_digest(file_views(files@)),
        digest@.len() == 32,
        is_hash_order(file_views(files@), files.len() as int, hash_order(file_views(files@))),
{
    let ghost views = file_views(files@);
    proof {
        crate::hash_laws::lemma_hash_order_is_order(views);
    }
    let mut keys: Vec<Vec<u32>> = Vec::new();
    let mut picked: Vec<usize> = Vec::new();
    let mut j: usize = 0;
    assert(indices(picked@) =~= hash_order_upto(views, 0));
    while j < files.len()
        invariant
            j <= files.len(),
            views == file_views(files@),
            keys.len() == picked.len(),
            indices(picked@) == hash_order_upto(views, j as nat),
            forall|k: int|
                0 <= k < picked.len() ==> (#[trigger] picked@[k]) < files.len() && keys@[k]@
                    == key_at(views, picked@[k] as int),
        decreases files.len() - j,
    {
        let key = sort_key_of(files[j].path.as_str());
        assert(key@ == key_at(views, j as int));
        let ghost order = indices(picked@);
        let mut pos: usize = picked.len();
        let mut placed = false;
        let mut same = false;
        while pos > 0 && !placed
            invariant
                pos <= picked.len(),
                keys.len() == picked.len(),
                order == indices(picked@),
                key@ == key_at(views, j as int),
                forall|k: int|
                    0 <= k < picked.len() ==> (#[trigger] picked@[k]) < files.len() && keys@[k]@
                        == key_at(views, picked@[k] as int),
                forall|p: int|
                    pos <= p < order.len() ==> lex_lt(key_at(views, j as int), key_at(views, order[p])),
                placed ==> pos > 0,
                placed && same ==> key_at(views, order[pos - 1]) == key_at(views, j as int),
                placed && !same ==> lex_lt(key_at(views, order[pos - 1]), key_at(views, j as int)),
                !placed ==> !same,
            decreases pos + (if placed { 0int } else { 1int }),
        {
            assert(order[pos - 1] == picked@[pos - 1] as int);
            match compare(&keys[pos - 1], &key) {
                Relation::Before => {
                    placed = true;
                },
                Relation::Same => {
                    placed = true;
                    same = true;
                },
                Relation::After => {
                    pos -= 1;
                },
            }
        }
        let ghost front = order.take(pos as int);
        let ghost next = insert_index(views, order, j as int);
        proof {
            lemma_insert_skips_later(views, order, j as int, pos as int);
            assert(hash_order_upto(views, (j + 1) as nat) == next);
            if pos == 0 {
                assert(front =~= Seq::<int>::empty());
                assert(insert_index(views, front, j as int) == seq![j as int]);
            } else {
                assert(placed);
                assert(front.last() == order[pos - 1]);
                if same {
                    crate::order::lemma_lex_irreflexive(key_at(views, j as int));
                    assert(insert_index(views, front, j as int) == front);
                } else {
                    assert(insert_index(views, front, j as int) == front.push(j as int));
                }
            }
        }
        if same {
            assert(front + order.skip(pos as int) =~= order);
        } else {
            picked.insert(pos, j);
            keys.insert(pos, key);
            proof {
                assert(insert_index(views, front, j as int) =~= front.push(j as int));
                assert(indices(picked@) =~= front.push(j as int) + order.skip(pos as int));
            }
        }
        j += 1;
    }
    let ghost order = indices(picked@);
    assert(order == hash_order(views));
    let mut out: Vec<u8> = Vec::new();
    let mut k: usize = 0;
    assert(order.take(0) =~= Seq::<int>::empty());
    while k < picked.len()
        invariant
            k <= picked.len(),
            views == file_views(files@),
            order == indices(picked@),
            forall|k: int| 0 <= k < picked.len() ==> (#[trigger] picked@[k]) < files.len(),
            out@ == stream(views, order.take(k as int)),
        decreases picked.len() - k,
    {
        let ghost upto = order.take(k as int + 1);
        assert(upto.drop_last() =~= order.take(k as int));
        assert(upto.last() == picked@[k as int] as int);
        append_bytes(&mut out, &files[picked[k]].contents);
        k += 1;
    }
    assert(order.take(k as int) =~= order);
    blake3_of(&out)
}

/// The character that stands for a number below sixteen.
pub open spec fn hex_digit(n: int) -> char {
    seq!['0', '1', '2', '3', '4', '5', '6', '7', '8', '9', 'a', 'b', 'c', 'd', 'e', 'f'][n]
}

/// `bytes` in lower-case hexadecimal, two characters for each byte.
pub open spec fn hex_text(bytes: Seq<u8>) -> Seq<char>
    decreases bytes.len(),
{
    if bytes.len() == 0 {
        Seq::<char>::empty()
    } else {
        hex_text(bytes.drop_last()).push(hex_digit(bytes.last() as int / 16)).push(
            hex_digit(bytes.last() as int % 16),
        )
    }
}

/// The character that stands for `n`.
fn hex_digit_of(n: u8) -> (c: char)
    requires
        n < 16,
    ensures
        c == hex_digit(n as int),
{
    match n {
        0 => '0',
        1 => '1',
        2 => '2',
        3 => '3',
        4 => '4',
        5 => '5',
        6 => '6',
        7 => '7',
        8 => '8',
        9 => '9',
        10 => 'a',
        11 => 'b',
        12 => 'c',
        13 => 'd',
        14 => 'e',
        _ => 'f',
    }
}

/// Writes `bytes` in lower-case hexadecimal.
pub fn to_hex(bytes: &Vec<u8>) -> (text: String)
    ensures
        text@ == hex_text(bytes@),
{
    let mut out: Vec<char> = Vec::new();
    let mut i: usize = 0;
    assert(bytes@.take(0) =~= Seq::<u8>::empty());
    while i < bytes.len()
        invariant
            i <= bytes.len(),
            out@ == hex_text(bytes@.take(i as int)),
        decreases bytes.len() - i,
    {
        let b = bytes[i];
        let ghost upto = bytes@.take(i as int + 1);
        assert(upto.drop_last() =~= bytes@.take(i as int));
        assert(upto.last() == b);
        out.push(hex_digit_of(b / 16));
        out.push(hex_digit_of(b % 16));
        i += 1;
    }
    assert(bytes@.take(i as int) =~= bytes@);
    string_of(&out)
}

} // verus!
