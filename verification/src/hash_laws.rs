//! What holds of the order in which files are hashed: it is the one list
//! that is ordered by key and names the first file of every key, so the
//! hash does not depend on the order in which the files are given.

use vstd::prelude::*;
use crate::hash_files::{
    FileView, files_digest, hash_order, hash_order_upto, hashed_bytes, insert_index,
    is_covered, is_first_of_key, is_hash_order, key_at, keys_increase, stream,
};
use crate::order::{lemma_lex_asymmetric, lemma_lex_irreflexive, lemma_lex_total, lemma_lex_transitive, lex_lt};

verus! {

/// Where `insert_index` puts `j` into a list ordered by key: nowhere (-1)
/// if its key is there already, else at the place that keeps the order.
proof fn lemma_insert_shape(files: Seq<FileView>, order: Seq<int>, j: int) -> (pos: int)
    requires
        keys_increase(files, order),
    ensures
        -1 <= pos <= order.len(),
        pos == -1 ==> insert_index(files, order, j) == order && is_covered(files, order, j),
        pos >= 0 ==> insert_index(files, order, j) == order.insert(pos, j),
        pos >= 0 ==> forall|p: int|
            0 <= p < pos ==> lex_lt(key_at(files, #[trigger] order[p]), key_at(files, j)),
        pos >= 0 ==> forall|p: int|
            pos <= p < order.len() ==> lex_lt(key_at(files, j), key_at(files, #[trigger] order[p])),
    decreases order.len(),
{
    let key = key_at(files, j);
    if order.len() == 0 {
        assert(order.insert(0, j) =~= seq![j]);
        0
    } else {
        let last = order.last();
        let n = order.len() as int;
        if lex_lt(key_at(files, last), key) {
            assert(order.insert(n, j) =~= order.push(j));
            assert forall|p: int| 0 <= p < n implies lex_lt(
                key_at(files, #[trigger] order[p]),
                key,
            ) by {
                if p < n - 1 {
                    assert(lex_lt(key_at(files, order[p]), key_at(files, order[n - 1])));
                    lemma_lex_transitive(key_at(files, order[p]), key_at(files, last), key);
                }
            }
            n
        } else if key_at(files, last) == key {
            assert(key_at(files, order[n - 1]) == key);
            -1
        } else {
            lemma_lex_total(key_at(files, last), key);
            let shorter = order.drop_last();
            assert forall|k: int, m: int|
                #![trigger shorter[k], shorter[m]]
                0 <= k < m < shorter.len() implies lex_lt(
                key_at(files, shorter[k]),
                key_at(files, shorter[m]),
            ) by {
                assert(shorter[k] == order[k] && shorter[m] == order[m]);
            }
            let pos = lemma_insert_shape(files, shorter, j);
            if pos == -1 {
                let k = choose|k: int|
                    0 <= k < shorter.len() && key_at(files, #[trigger] shorter[k]) == key;
                assert(order[k] == shorter[k]);
                assert(shorter.push(last) =~= order);
            } else {
                assert(shorter.insert(pos, j).push(last) =~= order.insert(pos, j));
                assert forall|p: int| 0 <= p < pos implies lex_lt(
                    key_at(files, #[trigger] order[p]),
                    key,
                ) by {
                    assert(order[p] == shorter[p]);
                }
                assert forall|p: int| pos <= p < order.len() implies lex_lt(
                    key,
                    key_at(files, #[trigger] order[p]),
                ) by {
                    if p < n - 1 {
                        assert(order[p] == shorter[p]);
                    }
                }
            }
            pos
        }
    }
}

/// Putting the next file into the order of the files before it gives the
/// order of the files up to and with it.
proof fn lemma_insert_keeps_order(files: Seq<FileView>, order: Seq<int>, j: int)
    requires
        0 <= j,
        is_hash_order(files, j, order),
    ensures
        is_hash_order(files, j + 1, insert_index(files, order, j)),
{
    let key = key_at(files, j);
    let next = insert_index(files, order, j);
    let pos = lemma_insert_shape(files, order, j);
    if pos == -1 {
        assert forall|i: int| 0 <= i < j + 1 implies #[trigger] is_covered(files, next, i) by {
            if i < j {
                assert(is_covered(files, order, i));
            }
        }
    } else {
        assert(next.len() == order.len() + 1);
        assert forall|k: int| 0 <= k < next.len() implies 0 <= #[trigger] next[k] < j + 1 by {
            if k < pos {
                assert(next[k] == order[k]);
            } else if k > pos {
                assert(next[k] == order[k - 1]);
            }
        }
        assert forall|k: int, m: int|
            #![trigger next[k], next[m]]
            0 <= k < m < next.len() implies lex_lt(key_at(files, next[k]), key_at(files, next[m])) by {
            if m < pos {
                assert(next[k] == order[k] && next[m] == order[m]);
            } else if m == pos {
                assert(next[k] == order[k]);
            } else if k < pos {
                assert(next[k] == order[k] && next[m] == order[m - 1]);
            } else if k == pos {
                assert(next[m] == order[m - 1]);
            } else {
                assert(next[k] == order[k - 1] && next[m] == order[m - 1]);
            }
        }
        assert(is_first_of_key(files, j)) by {
            assert forall|e: int| 0 <= e < j implies #[trigger] key_at(files, e) != key by {
                assert(is_covered(files, order, e));
                let k = choose|k: int|
                    0 <= k < order.len() && key_at(files, #[trigger] order[k]) == key_at(files, e);
                if k < pos {
                    lemma_lex_asymmetric(key_at(files, order[k]), key);
                } else {
                    lemma_lex_asymmetric(key, key_at(files, order[k]));
                }
            }
        }
        assert forall|k: int| 0 <= k < next.len() implies is_first_of_key(
            files,
            #[trigger] next[k],
        ) by {
            if k < pos {
                assert(next[k] == order[k]);
            } else if k > pos {
                assert(next[k] == order[k - 1]);
            }
        }
        assert forall|i: int| 0 <= i < j + 1 implies #[trigger] is_covered(files, next, i) by {
            if i < j {
                assert(is_covered(files, order, i));
                let k = choose|k: int|
                    0 <= k < order.len() && key_at(files, #[trigger] order[k]) == key_at(files, i);
                if k < pos {
                    assert(next[k] == order[k]);
                } else {
                    assert(next[k + 1] == order[k]);
                }
            } else {
                assert(next[pos] == j);
            }
        }
    }
}

/// The order of the first `n` files is ordered by key and names the first
/// file of every key among them.
pub proof fn lemma_order_upto(files: Seq<FileView>, n: nat)
    ensures
        is_hash_order(files, n as int, hash_order_upto(files, n)),
    decreases n,
{
    if n > 0 {
        lemma_order_upto(files, (n - 1) as nat);
        lemma_insert_keeps_order(files, hash_order_upto(files, (n - 1) as nat), n - 1);
    }
}

/// The order in which files are hashed is ordered by key, names only the
/// first file of each key, and leaves out no key.
pub proof fn lemma_hash_order_is_order(files: Seq<FileView>)
    ensures
        is_hash_order(files, files.len() as int, hash_order(files)),
{
    lemma_order_upto(files, files.len());
}

/// Whether every key of `a` is a key of `b`.
pub open spec fn keys_within(a: Seq<FileView>, b: Seq<FileView>) -> bool {
    forall|i: int|
        0 <= i < a.len() ==> exists|e: int|
            0 <= e < b.len() && #[trigger] key_at(b, e) == #[trigger] key_at(a, i)
}

/// Two orders over lists with the same keys agree on the first `k` keys.
proof fn lemma_orders_agree_upto(
    a: Seq<FileView>,
    oa: Seq<int>,
    b: Seq<FileView>,
    ob: Seq<int>,
    k: int,
)
    requires
        is_hash_order(a, a.len() as int, oa),
        is_hash_order(b, b.len() as int, ob),
        keys_within(a, b),
        keys_within(b, a),
        0 <= k <= oa.len(),
        k <= ob.len(),
    ensures
        forall|m: int| 0 <= m < k ==> key_at(a, #[trigger] oa[m]) == key_at(b, ob[m]),
    decreases k,
{
    if k > 0 {
        lemma_orders_agree_upto(a, oa, b, ob, k - 1);
        let m = k - 1;
        let ka = key_at(a, oa[m]);
        let kb = key_at(b, ob[m]);
        // The place of `ka` in `ob`, and of `kb` in `oa`.
        let pb = lemma_place_of_key(a, oa[m], b, ob);
        let pa = lemma_place_of_key(b, ob[m], a, oa);
        if pb < m {
            assert(key_at(a, oa[pb]) == key_at(b, ob[pb]));
            assert(lex_lt(key_at(a, oa[pb]), key_at(a, oa[m])));
            lemma_lex_irreflexive(ka);
        }
        if pa < m {
            assert(key_at(a, oa[pa]) == key_at(b, ob[pa]));
            assert(lex_lt(key_at(b, ob[pa]), key_at(b, ob[m])));
            lemma_lex_irreflexive(kb);
        }
        if pb > m {
            assert(lex_lt(key_at(b, ob[m]), key_at(b, ob[pb])));
            if pa > m {
                assert(lex_lt(key_at(a, oa[m]), key_at(a, oa[pa])));
                lemma_lex_transitive(kb, ka, kb);
                lemma_lex_irreflexive(kb);
            } else {
                lemma_lex_irreflexive(kb);
            }
        }
    }
}

/// The place in `order` of the key of the file at index `i` of `from`.
proof fn lemma_place_of_key(from: Seq<FileView>, i: int, files: Seq<FileView>, order: Seq<int>) -> (p:
    int)
    requires
        0 <= i < from.len(),
        keys_within(from, files),
        is_hash_order(files, files.len() as int, order),
    ensures
        0 <= p < order.len(),
        key_at(files, order[p]) == key_at(from, i),
{
    let e = choose|e: int| 0 <= e < files.len() && #[trigger] key_at(files, e) == key_at(from, i);
    assert(is_covered(files, order, e));
    choose|p: int| 0 <= p < order.len() && key_at(files, #[trigger] order[p]) == key_at(files, e)
}

/// Two lists of files with the same keys are hashed in orders of the same
/// length that name the same keys at the same places.
pub proof fn lemma_orders_agree(a: Seq<FileView>, oa: Seq<int>, b: Seq<FileView>, ob: Seq<int>)
    requires
        is_hash_order(a, a.len() as int, oa),
        is_hash_order(b, b.len() as int, ob),
        keys_within(a, b),
        keys_within(b, a),
    ensures
        oa.len() == ob.len(),
        forall|m: int| 0 <= m < oa.len() ==> key_at(a, #[trigger] oa[m]) == key_at(b, ob[m]),
{
    if oa.len() < ob.len() {
        let n = oa.len() as int;
        lemma_orders_agree_upto(a, oa, b, ob, n);
        let p = lemma_place_of_key(b, ob[n], a, oa);
        assert(key_at(a, oa[p]) == key_at(b, ob[p]));
        assert(lex_lt(key_at(b, ob[p]), key_at(b, ob[n])));
        lemma_lex_irreflexive(key_at(b, ob[n]));
    } else if ob.len() < oa.len() {
        let n = ob.len() as int;
        lemma_orders_agree_upto(a, oa, b, ob, n);
        let p = lemma_place_of_key(a, oa[n], b, ob);
        assert(key_at(a, oa[p]) == key_at(b, ob[p]));
        assert(lex_lt(key_at(a, oa[p]), key_at(a, oa[n])));
        lemma_lex_irreflexive(key_at(a, oa[n]));
    } else {
        lemma_orders_agree_upto(a, oa, b, ob, oa.len() as int);
    }
}

/// There is only one order in which a list of files can be hashed.
pub proof fn lemma_hash_order_is_unique(files: Seq<FileView>, order: Seq<int>)
    requires
        is_hash_order(files, files.len() as int, order),
    ensures
        order == hash_order(files),
{
    let mine = hash_order(files);
    lemma_hash_order_is_order(files);
    assert(keys_within(files, files)) by {
        assert forall|i: int| 0 <= i < files.len() implies exists|e: int|
            0 <= e < files.len() && #[trigger] key_at(files, e) == #[trigger] key_at(files, i) by {
            assert(key_at(files, i) == key_at(files, i));
        }
    }
    lemma_orders_agree(files, order, files, mine);
    assert forall|m: int| 0 <= m < order.len() implies order[m] == mine[m] by {
        assert(key_at(files, order[m]) == key_at(files, mine[m]));
        assert(is_first_of_key(files, order[m]));
        assert(is_first_of_key(files, mine[m]));
        if order[m] < mine[m] {
            assert(key_at(files, order[m]) != key_at(files, mine[m]));
        } else if mine[m] < order[m] {
            assert(key_at(files, mine[m]) != key_at(files, order[m]));
        }
    }
    assert(order =~= mine);
}

/// Streams that take equal contents at every place are equal.
proof fn lemma_streams_agree(a: Seq<FileView>, oa: Seq<int>, b: Seq<FileView>, ob: Seq<int>)
    requires
        oa.len() == ob.len(),
        forall|m: int| 0 <= m < oa.len() ==> a[#[trigger] oa[m]].contents == b[ob[m]].contents,
    ensures
        stream(a, oa) == stream(b, ob),
    decreases oa.len(),
{
    if oa.len() > 0 {
        let sa = oa.drop_last();
        let sb = ob.drop_last();
        assert forall|m: int| 0 <= m < sa.len() implies a[#[trigger] sa[m]].contents
            == b[sb[m]].contents by {
            assert(sa[m] == oa[m] && sb[m] == ob[m]);
        }
        lemma_streams_agree(a, sa, b, sb);
        assert(a[oa[oa.len() - 1]].contents == b[ob[oa.len() - 1]].contents);
    }
}

/// Whether every file of `a` is a file of `b`.
pub open spec fn files_within(a: Seq<FileView>, b: Seq<FileView>) -> bool {
    forall|i: int| 0 <= i < a.len() ==> b.contains(#[trigger] a[i])
}

/// Whether files of `a` with one key hold the same contents.
pub open spec fn keys_decide_contents(a: Seq<FileView>) -> bool {
    forall|i: int, e: int|
        0 <= i < a.len() && 0 <= e < a.len() && #[trigger] key_at(a, i) == #[trigger] key_at(a, e)
            ==> a[i].contents == a[e].contents
}

/// The content hash does not depend on the order of its arguments: two
/// lists that hold the same files, in any order and any number of times,
/// have the same hash, as long as files with one key hold the same
/// contents.
pub proof fn lemma_argument_order_is_irrelevant(a: Seq<FileView>, b: Seq<FileView>)
    requires
        files_within(a, b),
        files_within(b, a),
        keys_decide_contents(a),
    ensures
        hashed_bytes(a) == hashed_bytes(b),
        files_digest(a) == files_digest(b),
{
    let oa = hash_order(a);
    let ob = hash_order(b);
    lemma_hash_order_is_order(a);
    lemma_hash_order_is_order(b);
    assert(keys_within(a, b)) by {
        assert forall|i: int| 0 <= i < a.len() implies exists|e: int|
            0 <= e < b.len() && #[trigger] key_at(b, e) == #[trigger] key_at(a, i) by {
            assert(b.contains(a[i]));
            let e = choose|e: int| 0 <= e < b.len() && b[e] == a[i];
            assert(key_at(b, e) == key_at(a, i));
        }
    }
    assert(keys_within(b, a)) by {
        assert forall|i: int| 0 <= i < b.len() implies exists|e: int|
            0 <= e < a.len() && #[trigger] key_at(a, e) == #[trigger] key_at(b, i) by {
            assert(a.contains(b[i]));
            let e = choose|e: int| 0 <= e < a.len() && a[e] == b[i];
            assert(key_at(a, e) == key_at(b, i));
        }
    }
    lemma_orders_agree(a, oa, b, ob);
    assert forall|m: int| 0 <= m < oa.len() implies a[#[trigger] oa[m]].contents
        == b[ob[m]].contents by {
        assert(key_at(a, oa[m]) == key_at(b, ob[m]));
        assert(0 <= ob[m] < b.len());
        assert(a.contains(b[ob[m]]));
        let e = choose|e: int| 0 <= e < a.len() && a[e] == b[ob[m]];
        assert(key_at(a, e) == key_at(a, oa[m]));
    }
    lemma_streams_agree(a, oa, b, ob);
}

/// Whether `a` and `b` are the same files but for what they hold.
pub open spec fn same_paths(a: Seq<FileView>, b: Seq<FileView>) -> bool {
    &&& a.len() == b.len()
    &&& forall|i: int| 0 <= i < a.len() ==> (#[trigger] a[i]).path == b[i].path
}

/// Whether every file of `a` is as long as the file of `b` in its place.
pub open spec fn same_lengths(a: Seq<FileView>, b: Seq<FileView>) -> bool {
    &&& a.len() == b.len()
    &&& forall|i: int| 0 <= i < a.len() ==> (#[trigger] a[i]).contents.len() == b[i].contents.len()
}

/// The order in which files are hashed depends on their paths alone.
pub proof fn lemma_order_is_by_path(a: Seq<FileView>, b: Seq<FileView>, n: nat)
    requires
        same_paths(a, b),
        n <= a.len(),
    ensures
        hash_order_upto(a, n) == hash_order_upto(b, n),
    decreases n,
{
    if n > 0 {
        lemma_order_is_by_path(a, b, (n - 1) as nat);
        lemma_order_upto(a, (n - 1) as nat);
        lemma_insert_is_by_path(a, b, hash_order_upto(a, (n - 1) as nat), n - 1);
    }
}

proof fn lemma_insert_is_by_path(a: Seq<FileView>, b: Seq<FileView>, order: Seq<int>, j: int)
    requires
        same_paths(a, b),
        0 <= j < a.len(),
        forall|k: int| 0 <= k < order.len() ==> 0 <= #[trigger] order[k] < a.len(),
    ensures
        insert_index(a, order, j) == insert_index(b, order, j),
    decreases order.len(),
{
    assert(a[j].path == b[j].path);
    if order.len() > 0 {
        let last = order[order.len() - 1];
        assert(a[last].path == b[last].path);
        let rest = order.drop_last();
        assert forall|k: int| 0 <= k < rest.len() implies 0 <= #[trigger] rest[k] < a.len() by {
            assert(rest[k] == order[k]);
        }
        lemma_insert_is_by_path(a, b, rest, j);
    }
}

/// Streams over files of the same lengths are of the same length.
proof fn lemma_stream_length(a: Seq<FileView>, b: Seq<FileView>, order: Seq<int>)
    requires
        same_lengths(a, b),
        forall|k: int| 0 <= k < order.len() ==> 0 <= #[trigger] order[k] < a.len(),
    ensures
        stream(a, order).len() == stream(b, order).len(),
    decreases order.len(),
{
    if order.len() > 0 {
        let last = order[order.len() - 1];
        assert(a[last].contents.len() == b[last].contents.len());
        let rest = order.drop_last();
        assert forall|k: int| 0 <= k < rest.len() implies 0 <= #[trigger] rest[k] < a.len() by {
            assert(rest[k] == order[k]);
        }
        lemma_stream_length(a, b, rest);
    }
}

/// Streams that differ in one byte of one file at place `m` differ.
proof fn lemma_stream_differs(a: Seq<FileView>, b: Seq<FileView>, order: Seq<int>, m: int, at: int)
    requires
        same_lengths(a, b),
        forall|k: int| 0 <= k < order.len() ==> 0 <= #[trigger] order[k] < a.len(),
        0 <= m < order.len(),
        0 <= at < a[order[m]].contents.len(),
        a[order[m]].contents[at] != b[order[m]].contents[at],
    ensures
        stream(a, order) != stream(b, order),
    decreases order.len(),
{
    let last = order[order.len() - 1];
    let rest = order.drop_last();
    assert(a[last].contents.len() == b[last].contents.len());
    assert forall|k: int| 0 <= k < rest.len() implies 0 <= #[trigger] rest[k] < a.len() by {
        assert(rest[k] == order[k]);
    }
    lemma_stream_length(a, b, rest);
    let sa = stream(a, rest);
    let sb = stream(b, rest);
    if m == order.len() - 1 {
        assert(stream(a, order)[sa.len() + at] == a[last].contents[at]);
        assert(stream(b, order)[sb.len() + at] == b[last].contents[at]);
    } else {
        assert(rest[m] == order[m]);
        lemma_stream_differs(a, b, rest, m, at);
        if stream(a, order) == stream(b, order) {
            assert(stream(a, order).take(sa.len() as int) =~= sa);
            assert(stream(b, order).take(sb.len() as int) =~= sb);
        }
    }
}

/// A changed byte in a file that is hashed changes the bytes that are
/// hashed: if `b` holds the files of `a` under the same paths and with the
/// same lengths, and the file at index `i`, the first of its path, differs
/// from its counterpart in one byte, then other bytes are hashed for `b`
/// than for `a`.
pub proof fn lemma_changed_byte_changes_stream(
    a: Seq<FileView>,
    b: Seq<FileView>,
    i: int,
    at: int,
)
    requires
        same_paths(a, b),
        same_lengths(a, b),
        0 <= i < a.len(),
        is_first_of_key(a, i),
        0 <= at < a[i].contents.len(),
        a[i].contents[at] != b[i].contents[at],
    ensures
        hashed_bytes(a) != hashed_bytes(b),
{
    let order = hash_order(a);
    lemma_order_is_by_path(a, b, a.len());
    lemma_hash_order_is_order(a);
    assert(is_covered(a, order, i));
    let m = choose|m: int| 0 <= m < order.len() && key_at(a, #[trigger] order[m]) == key_at(a, i);
    assert(is_first_of_key(a, order[m]));
    if order[m] < i {
        assert(key_at(a, order[m]) != key_at(a, i));
    } else if i < order[m] {
        assert(key_at(a, i) != key_at(a, order[m]));
    }
    lemma_stream_differs(a, b, order, m, at);
}

/// The hash of no files is the hash of the empty stream.
pub proof fn lemma_empty_set_has_fixed_hash()
    ensures
        hashed_bytes(Seq::<FileView>::empty()) == Seq::<u8>::empty(),
        files_digest(Seq::<FileView>::empty()) == crate::hash_files::blake3_digest(
            Seq::<u8>::empty(),
        ),
{
}

} // verus!
