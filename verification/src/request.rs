use vstd::prelude::*;

use crate::ext::string_from_utf8;
use crate::protocol::{pairs_view, pairs_wf};

verus! {

/// One key-value pair at the specification level.
pub type PairV = (Seq<char>, Seq<char>);

/// The pairs of `ps` whose key is not `key`, in order.
pub open spec fn remove_key(ps: Seq<PairV>, key: Seq<char>) -> Seq<PairV>
    decreases ps.len(),
{
    if ps.len() == 0 {
        Seq::empty()
    } else if ps.first().0 == key {
        remove_key(ps.drop_first(), key)
    } else {
        seq![ps.first()] + remove_key(ps.drop_first(), key)
    }
}

/// Binding `key` to `value`, overriding any earlier binding of the key.
pub open spec fn insert_pair(ps: Seq<PairV>, key: Seq<char>, value: Seq<char>) -> Seq<PairV> {
    remove_key(ps, key).push((key, value))
}

/// What `remove_key` leaves: no pair with the key, the other pairs as they
/// were; removing an absent key changes nothing.
pub proof fn lemma_remove_key(ps: Seq<PairV>, key: Seq<char>)
    ensures
        forall|k: int|
            0 <= k < remove_key(ps, key).len() ==> (#[trigger] remove_key(ps, key)[k]).0 != key
                && ps.contains(remove_key(ps, key)[k]),
        pairs_wf(ps) ==> pairs_wf(remove_key(ps, key)),
        (forall|k: int| 0 <= k < ps.len() ==> (#[trigger] ps[k]).0 != key) ==> remove_key(ps, key)
            == ps,
    decreases ps.len(),
{
    if ps.len() == 0 {
        assert(remove_key(ps, key) =~= ps);
    } else {
        let pre = ps.drop_first();
        lemma_remove_key(pre, key);
        let res = remove_key(ps, key);
        let rpre = remove_key(pre, key);
        assert(forall|k: int|
            0 <= k < pre.len() ==> pre[k] == ps[k + 1] && ps.contains(#[trigger] pre[k]));
        assert forall|k: int| 0 <= k < rpre.len() implies ps.contains(#[trigger] rpre[k]) by {
            assert(pre.contains(rpre[k]));
            let w = choose|w: int| 0 <= w < pre.len() && pre[w] == rpre[k];
            assert(ps[w + 1] == rpre[k]);
        }
        if ps.first().0 == key {
            assert(forall|k: int|
                0 <= k < res.len() ==> ps.contains(#[trigger] res[k]) && res[k].0 != key);
        } else {
            assert(res == seq![ps.first()] + rpre);
            assert(res[0] == ps.first());
            assert(forall|k: int| 1 <= k < res.len() ==> res[k] == rpre[k - 1]);
            assert(forall|k: int|
                0 <= k < res.len() ==> ps.contains(#[trigger] res[k]) && res[k].0 != key);
            if pairs_wf(ps) {
                assert(pairs_wf(pre));
                assert forall|i: int, j: int| 0 <= i < j < res.len() implies res[i].0
                    != res[j].0 by {
                    if i == 0 {
                        assert(pre.contains(rpre[j - 1]));
                        let w = choose|w: int| 0 <= w < pre.len() && pre[w] == rpre[j - 1];
                        assert(ps[0].0 != ps[w + 1].0);
                    }
                }
            }
            if forall|k: int| 0 <= k < ps.len() ==> (#[trigger] ps[k]).0 != key {
                assert(forall|k: int| 0 <= k < pre.len() ==> (#[trigger] pre[k]).0 != key);
                assert(res =~= ps);
            }
        }
    }
}

/// Inserting keeps the keys pairwise distinct.
pub proof fn lemma_insert_pair_wf(ps: Seq<PairV>, key: Seq<char>, value: Seq<char>)
    requires
        pairs_wf(ps),
    ensures
        pairs_wf(insert_pair(ps, key, value)),
{
    lemma_remove_key(ps, key);
}

/// The mapping the raw pairs denote: each applied in order, a later pair
/// overriding an earlier one with the same key.
pub open spec fn build_pairs(raw: Seq<PairV>) -> Seq<PairV>
    decreases raw.len(),
{
    if raw.len() == 0 {
        Seq::empty()
    } else {
        insert_pair(build_pairs(raw.drop_last()), raw.last().0, raw.last().1)
    }
}

/// The mapping built is always well formed.
pub proof fn lemma_build_pairs_wf(raw: Seq<PairV>)
    ensures
        pairs_wf(build_pairs(raw)),
    decreases raw.len(),
{
    if raw.len() == 0 {
    } else {
        lemma_build_pairs_wf(raw.drop_last());
        lemma_insert_pair_wf(build_pairs(raw.drop_last()), raw.last().0, raw.last().1);
    }
}

/// Replaces any binding of `key` in `acc` with `(key, value)`, appended at
/// the end.
pub fn insert_header(acc: &mut Vec<(String, String)>, key: String, value: String)
    ensures
        pairs_view(final(acc)@) == insert_pair(pairs_view(old(acc)@), key@, value@),
{
    let ghost orig = pairs_view(acc@);
    let mut kept: Vec<(String, String)> = Vec::new();
    proof {
        assert(pairs_view(acc@).skip(pairs_view(acc@).len() as int) =~= Seq::<PairV>::empty());
        assert(pairs_view(kept@) =~= remove_key(orig.skip(orig.len() as int), key@));
        assert(pairs_view(acc@) =~= orig.take(orig.len() as int));
    }
    while acc.len() > 0
        invariant
            acc@.len() <= orig.len(),
            orig.len() == old(acc)@.len(),
            orig == pairs_view(old(acc)@),
            pairs_view(acc@) == orig.take(acc@.len() as int),
            pairs_view(kept@) == remove_key(orig.skip(acc@.len() as int), key@),
        decreases acc.len(),
    {
        let ghost pre_len = acc@.len() as int;
        if let Some(entry) = acc.pop() {
            proof {
                assert(pairs_view(acc@) =~= orig.take(pre_len).drop_last());
                assert(orig.take(pre_len).drop_last() =~= orig.take(pre_len - 1));
                assert(orig.take(pre_len)[pre_len - 1] == orig[pre_len - 1]);
                assert(orig.skip(pre_len - 1).drop_first() =~= orig.skip(pre_len));
                assert(orig.skip(pre_len - 1).first() == orig[pre_len - 1]);
                assert(orig[pre_len - 1] == (entry.0@, entry.1@));
            }
            if crate::codec::str_eq(entry.0.as_str(), key.as_str()) {
            } else {
                kept.insert(0, entry);
                proof {
                    assert(pairs_view(kept@) =~= seq![(kept@[0].0@, kept@[0].1@)] + remove_key(
                        orig.skip(pre_len),
                        key@,
                    ));
                }
            }
        }
    }
    proof {
        assert(orig.skip(0) =~= orig);
    }
    kept.push((key, value));
    *acc = kept;
    proof {
        assert(pairs_view(acc@) =~= remove_key(orig, key@).push((key@, value@)));
    }
}

/// Collapses raw header pairs (possibly with repeated names) into the
/// mapping they denote, last write winning.
pub fn collect_headers(raw: &Vec<(String, String)>) -> (r: Vec<(String, String)>)
    ensures
        pairs_view(r@) == build_pairs(pairs_view(raw@)),
        pairs_wf(pairs_view(r@)),
{
    let mut acc: Vec<(String, String)> = Vec::new();
    let mut i: usize = 0;
    proof {
        assert(pairs_view(raw@).take(0) =~= Seq::<PairV>::empty());
        assert(pairs_view(acc@) =~= build_pairs(pairs_view(raw@).take(0)));
    }
    while i < raw.len()
        invariant
            i <= raw@.len(),
            pairs_view(acc@) == build_pairs(pairs_view(raw@).take(i as int)),
        decreases raw@.len() - i,
    {
        let key = raw[i].0.clone();
        let value = raw[i].1.clone();
        proof {
            assert(pairs_view(raw@).take(i + 1).drop_last() =~= pairs_view(raw@).take(i as int));
            assert(pairs_view(raw@).take(i + 1).last() == (key@, value@));
        }
        insert_header(&mut acc, key, value);
        i += 1;
    }
    proof {
        assert(pairs_view(raw@).take(raw@.len() as int) =~= pairs_view(raw@));
        lemma_build_pairs_wf(pairs_view(raw@));
    }
    acc
}

/// The index of the first `c` at or after `from`, or the length when there
/// is none.
pub open spec fn find_from(s: Seq<char>, c: char, from: int) -> int
    decreases s.len() - from,
{
    if from < 0 || from >= s.len() {
        s.len() as int
    } else if s[from] == c {
        from
    } else {
        find_from(s, c, from + 1)
    }
}

/// Where `find_from` lands: between `from` and the end.
pub proof fn lemma_find_from(s: Seq<char>, c: char, from: int)
    ensures
        0 <= find_from(s, c, from) <= s.len(),
        0 <= from <= s.len() ==> from <= find_from(s, c, from),
    decreases s.len() - from,
{
    if 0 <= from && from < s.len() && s[from] != c {
        lemma_find_from(s, c, from + 1);
    }
}

/// The key and value one query segment denotes: the text before the first
/// `=` and the text between the first and second `=`; a segment without `=`
/// denotes nothing.
pub open spec fn seg_pair(seg: Seq<char>) -> Option<PairV> {
    let p = find_from(seg, '=', 0);
    if p >= seg.len() {
        None
    } else {
        let q = find_from(seg, '=', p + 1);
        Some((seg.take(p), seg.subrange(p + 1, q)))
    }
}

/// The query segments: the text split on `&`.
pub open spec fn segments(s: Seq<char>) -> Seq<Seq<char>>
    decreases s.len(),
        via segments_decreases
{
    let i = find_from(s, '&', 0);
    if i >= s.len() {
        seq![s]
    } else {
        seq![s.take(i)] + segments(s.skip(i + 1))
    }
}

#[via_fn]
proof fn segments_decreases(s: Seq<char>) {
    lemma_find_from(s, '&', 0);
}

/// Folds the pairs the segments denote into `acc`, in order, last write
/// winning; malformed segments are dropped.
pub open spec fn fold_segments(segs: Seq<Seq<char>>, acc: Seq<PairV>) -> Seq<PairV>
    decreases segs.len(),
{
    if segs.len() == 0 {
        acc
    } else {
        fold_segments(
            segs.drop_first(),
            match seg_pair(segs.first()) {
                Some(p) => insert_pair(acc, p.0, p.1),
                None => acc,
            },
        )
    }
}

/// The query-parameter mapping a raw query string denotes.
pub open spec fn parse_query(s: Seq<char>) -> Seq<PairV> {
    fold_segments(segments(s), Seq::empty())
}

/// The position of the first `c` at or after `from`.
fn find_char_at(s: &str, from: usize, c: char) -> (r: usize)
    ensures
        r == find_from(s@, c, from as int),
        r <= s@.len(),
    decreases s@.len() - from,
{
    let n = s.unicode_len();
    if from >= n {
        return n;
    }
    if s.get_char(from) == c {
        return from;
    }
    find_char_at(s, from + 1, c)
}

/// Applies one query segment to the accumulated mapping.
fn apply_segment(acc: &mut Vec<(String, String)>, seg: &str)
    ensures
        pairs_view(final(acc)@) == (match seg_pair(seg@) {
            Some(p) => insert_pair(pairs_view(old(acc)@), p.0, p.1),
            None => pairs_view(old(acc)@),
        }),
{
    let n = seg.unicode_len();
    let p = find_char_at(seg, 0, '=');
    if p >= n {
        return;
    }
    let q = find_char_at(seg, p + 1, '=');
    proof {
        lemma_find_from(seg@, '=', p + 1);
    }
    let key = seg.substring_char(0, p).to_owned();
    let value = seg.substring_char(p + 1, q).to_owned();
    insert_header(acc, key, value);
}

/// Folds every segment of `s` into `acc`, mirroring `fold_segments`.
fn apply_query(acc: &mut Vec<(String, String)>, s: &str)
    ensures
        pairs_view(final(acc)@) == fold_segments(segments(s@), pairs_view(old(acc)@)),
    decreases s@.len(),
{
    let n = s.unicode_len();
    let i = find_char_at(s, 0, '&');
    let ghost segs = segments(s@);
    let ghost pv0 = pairs_view(acc@);
    if i >= n {
        proof {
            assert(segs == seq![s@]);
            assert(segs.first() == s@);
            assert(segs.drop_first() =~= Seq::<Seq<char>>::empty());
        }
        apply_segment(acc, s);
        proof {
            assert(fold_segments(segs.drop_first(), pairs_view(acc@)) == pairs_view(acc@));
            assert(fold_segments(segs, pv0) == pairs_view(acc@));
        }
    } else {
        let head = s.substring_char(0, i);
        let tail = s.substring_char(i + 1, n);
        proof {
            assert(segs == seq![s@.take(i as int)] + segments(s@.skip(i + 1)));
            assert(segs.first() == s@.take(i as int));
            assert(segs.first() == head@);
            assert(segs.drop_first() =~= segments(s@.skip(i + 1)));
            assert(tail@ == s@.skip(i + 1));
        }
        apply_segment(acc, head);
        let ghost mid = pairs_view(acc@);
        proof {
            assert(fold_segments(segs, pv0) == fold_segments(segs.drop_first(), mid));
        }
        apply_query(acc, tail);
        proof {
            assert(pairs_view(acc@) == fold_segments(segments(tail@), mid));
            assert(segments(tail@) == segs.drop_first());
        }
    }
}

/// The query-parameter mapping of a raw query string: segments split on
/// `&`, each split on `=`, segments without `=` silently dropped, repeated
/// keys resolved last-write-wins.
pub fn query_params_from(query: &str) -> (r: Vec<(String, String)>)
    ensures
        pairs_view(r@) == parse_query(query@),
{
    let mut acc: Vec<(String, String)> = Vec::new();
    proof {
        assert(pairs_view(acc@) =~= Seq::<PairV>::empty());
    }
    apply_query(&mut acc, query);
    acc
}

/// The request body as text: decoded when the bytes are valid UTF-8, empty
/// otherwise.
pub fn body_from_bytes(bytes: Vec<u8>) -> (r: String)
    ensures
        vstd::utf8::valid_utf8(bytes@) ==> vstd::utf8::encode_utf8(r@) == bytes@,
        !vstd::utf8::valid_utf8(bytes@) ==> r@ == Seq::<char>::empty(),
{
    match string_from_utf8(bytes) {
        Some(s) => s,
        None => String::new(),
    }
}

} // verus!
