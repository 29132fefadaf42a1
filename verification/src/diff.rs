//! The diff engine: a pure comparison of the original and the working
//! document, rendered as the ordered, human-readable change list shown
//! before the commit gate.

use vstd::prelude::*;

use crate::doc::{
    doc_bools, doc_hosts, doc_ints, doc_servers, doc_strs, doc_try, get_bool, get_i64, get_str,
    hosts_rows, servers_rows, try_rows,
};
use crate::text::{
    dec_rep_signed, i64_to_string, lemma_lex_trans, lemma_lex_trichotomy, lex_lt, list_display,
    spec_list_display, str_eq, str_lex_lt,
};

verus! {

/// One key/value pair of a rendered mapping.
pub type DispPair = (Seq<char>, Seq<char>);

/// Non-strict key order between two adjacent pairs of a sorted mapping.
pub open spec fn key_le(p: DispPair, q: DispPair) -> bool {
    !lex_lt(q.0, p.0)
}

/// Strict key order between two adjacent pairs of a sorted mapping.
pub open spec fn key_lt(p: DispPair, q: DispPair) -> bool {
    lex_lt(p.0, q.0)
}

/// The pairs are sorted by key, equal keys allowed.
pub open spec fn sorted_le(v: Seq<DispPair>) -> bool {
    forall|i: int| 0 <= i && i + 1 < v.len() ==> key_le(#[trigger] v[i], v[i + 1])
}

/// The pairs are strictly sorted by key, so the keys are distinct.
pub open spec fn sorted_lt(v: Seq<DispPair>) -> bool {
    forall|i: int| 0 <= i && i + 1 < v.len() ==> key_lt(#[trigger] v[i], v[i + 1])
}

/// The sequence lists exactly the pairs of the mapping, in strictly
/// ascending key order: the unique sorted listing of the mapping.
pub open spec fn is_sorted_pairs_of(v: Seq<DispPair>, m: Map<Seq<char>, Seq<char>>) -> bool {
    &&& sorted_lt(v)
    &&& forall|i: int| 0 <= i < v.len() ==> m.contains_pair((#[trigger] v[i]).0, v[i].1)
    &&& forall|k: Seq<char>|
        #[trigger] m.dom().contains(k) ==> exists|i: int|
            0 <= i < v.len() && (#[trigger] v[i]).0 == k
}

/// The sorted listing of a mapping's pairs.
pub open spec fn sorted_pairs_of(m: Map<Seq<char>, Seq<char>>) -> Seq<DispPair> {
    choose|v: Seq<DispPair>| is_sorted_pairs_of(v, m)
}

proof fn lemma_sorted_lt_all(v: Seq<DispPair>, i: int, j: int)
    requires
        sorted_lt(v),
        0 <= i < j < v.len(),
    ensures
        key_lt(v[i], v[j]),
    decreases j - i,
{
    if j == i + 1 {
    } else {
        lemma_sorted_lt_all(v, i, j - 1);
        lemma_lex_trans(v[i].0, v[j - 1].0, v[j].0);
    }
}

proof fn lemma_head_is_min(v: Seq<DispPair>, m: Map<Seq<char>, Seq<char>>, k: Seq<char>)
    requires
        is_sorted_pairs_of(v, m),
        v.len() > 0,
        m.dom().contains(k),
        k != v[0].0,
    ensures
        lex_lt(v[0].0, k),
{
    let i = choose|i: int| 0 <= i < v.len() && (#[trigger] v[i]).0 == k;
    assert(i > 0);
    lemma_sorted_lt_all(v, 0, i);
}

proof fn lemma_tail_sorted_pairs(v: Seq<DispPair>, m: Map<Seq<char>, Seq<char>>)
    requires
        is_sorted_pairs_of(v, m),
        v.len() > 0,
    ensures
        is_sorted_pairs_of(v.drop_first(), m.remove(v[0].0)),
{
    let k0 = v[0].0;
    let t = v.drop_first();
    let m1 = m.remove(k0);
    assert forall|i: int| 0 <= i && i + 1 < t.len() implies key_lt(#[trigger] t[i], t[i + 1]) by {
        assert(t[i] == v[i + 1]);
        assert(t[i + 1] == v[i + 2]);
    }
    assert forall|i: int| 0 <= i < t.len() implies m1.contains_pair(
        (#[trigger] t[i]).0,
        t[i].1,
    ) by {
        assert(t[i] == v[i + 1]);
        assert(m.contains_pair(v[i + 1].0, v[i + 1].1));
        lemma_sorted_lt_all(v, 0, i + 1);
        lemma_lex_trichotomy(k0, v[i + 1].0);
    }
    assert forall|k: Seq<char>| #[trigger] m1.dom().contains(k) implies exists|i: int|
        0 <= i < t.len() && (#[trigger] t[i]).0 == k by {
        assert(m.dom().contains(k));
        let i = choose|i: int| 0 <= i < v.len() && (#[trigger] v[i]).0 == k;
        assert(i != 0);
        assert(t[i - 1] == v[i]);
    }
}

/// Two strictly sorted listings of the same mapping are the same sequence:
/// the change list's per-mapping order is fully determined.
#[verifier::rlimit(100)]
pub proof fn lemma_sorted_pairs_unique(v1: Seq<DispPair>, v2: Seq<DispPair>, m: Map<Seq<char>, Seq<char>>)
    requires
        is_sorted_pairs_of(v1, m),
        is_sorted_pairs_of(v2, m),
    ensures
        v1 == v2,
    decreases v1.len(),
{
    if v1.len() == 0 && v2.len() == 0 {
        assert(v1 =~= v2);
    } else if v1.len() == 0 {
        assert(m.contains_pair(v2[0].0, v2[0].1));
        assert(m.dom().contains(v2[0].0));
        let i = choose|i: int| 0 <= i < v1.len() && (#[trigger] v1[i]).0 == v2[0].0;
        assert(false);
    } else if v2.len() == 0 {
        assert(m.contains_pair(v1[0].0, v1[0].1));
        assert(m.dom().contains(v1[0].0));
        let i = choose|i: int| 0 <= i < v2.len() && (#[trigger] v2[i]).0 == v1[0].0;
        assert(false);
    } else {
        assert(m.contains_pair(v1[0].0, v1[0].1));
        assert(m.contains_pair(v2[0].0, v2[0].1));
        if v1[0].0 != v2[0].0 {
            lemma_head_is_min(v1, m, v2[0].0);
            lemma_head_is_min(v2, m, v1[0].0);
            lemma_lex_trichotomy(v1[0].0, v2[0].0);
            assert(false);
        }
        assert(v1[0] == v2[0]);
        lemma_tail_sorted_pairs(v1, m);
        lemma_tail_sorted_pairs(v2, m);
        lemma_sorted_pairs_unique(v1.drop_first(), v2.drop_first(), m.remove(v1[0].0));
        assert(v1.len() == v2.len());
        assert forall|i: int| 0 <= i < v1.len() implies v1[i] == v2[i] by {
            if i > 0 {
                assert(v1.drop_first()[i - 1] == v2.drop_first()[i - 1]);
            }
        }
        assert(v1 =~= v2);
    }
}

/// The line announcing an entry only the working mapping holds.
pub open spec fn added_line(label: Seq<char>, k: Seq<char>, v: Seq<char>) -> Seq<char> {
    label + ": 追加 "@ + k + " = "@ + v
}

/// The line announcing an entry only the original mapping holds.
pub open spec fn removed_line(label: Seq<char>, k: Seq<char>, v: Seq<char>) -> Seq<char> {
    label + ": 削除 "@ + k + " = "@ + v
}

/// The line announcing an entry whose value changed.
pub open spec fn changed_line(label: Seq<char>, k: Seq<char>, before: Seq<char>, after: Seq<char>) -> Seq<char> {
    label + ": 変更 "@ + k + " = "@ + before + " -> "@ + after
}

/// The change lines of two sorted pair listings, merged in ascending key
/// order: one line per added, removed or changed key, none for a key whose
/// value stayed the same.
pub open spec fn spec_diff_pairs(label: Seq<char>, a: Seq<DispPair>, b: Seq<DispPair>) -> Seq<
    Seq<char>,
>
    decreases a.len() + b.len(),
{
    if a.len() == 0 && b.len() == 0 {
        Seq::empty()
    } else if b.len() == 0 {
        seq![removed_line(label, a[0].0, a[0].1)] + spec_diff_pairs(label, a.drop_first(), b)
    } else if a.len() == 0 {
        seq![added_line(label, b[0].0, b[0].1)] + spec_diff_pairs(label, a, b.drop_first())
    } else if a[0].0 == b[0].0 {
        (if a[0].1 == b[0].1 {
            Seq::empty()
        } else {
            seq![changed_line(label, a[0].0, a[0].1, b[0].1)]
        }) + spec_diff_pairs(label, a.drop_first(), b.drop_first())
    } else if lex_lt(a[0].0, b[0].0) {
        seq![removed_line(label, a[0].0, a[0].1)] + spec_diff_pairs(label, a.drop_first(), b)
    } else {
        seq![added_line(label, b[0].0, b[0].1)] + spec_diff_pairs(label, a, b.drop_first())
    }
}

fn render_added(label: &str, k: &String, v: &String) -> (r: String)
    ensures
        r@ == added_line(label@, k@, v@),
{
    let mut line = label.to_owned();
    line.append(": 追加 ");
    line.append(k.as_str());
    line.append(" = ");
    line.append(v.as_str());
    line
}

fn render_removed(label: &str, k: &String, v: &String) -> (r: String)
    ensures
        r@ == removed_line(label@, k@, v@),
{
    let mut line = label.to_owned();
    line.append(": 削除 ");
    line.append(k.as_str());
    line.append(" = ");
    line.append(v.as_str());
    line
}

fn render_changed(label: &str, k: &String, before: &String, after: &String) -> (r: String)
    ensures
        r@ == changed_line(label@, k@, before@, after@),
{
    let mut line = label.to_owned();
    line.append(": 変更 ");
    line.append(k.as_str());
    line.append(" = ");
    line.append(before.as_str());
    line.append(" -> ");
    line.append(after.as_str());
    line
}

/// Computes the change lines between two sorted key/value listings: one
/// line per added, removed or changed key, in ascending key order.
pub fn diff_map(label: &str, before: &Vec<(String, String)>, after: &Vec<(String, String)>) -> (r:
    Vec<String>)
    ensures
        r.deep_view() == spec_diff_pairs(label@, before.deep_view(), after.deep_view()),
{
    let ghost av = before.deep_view();
    let ghost bv = after.deep_view();
    let mut out: Vec<String> = Vec::new();
    let mut i: usize = 0;
    let mut j: usize = 0;
    proof {
        assert(av.skip(0) == av);
        assert(bv.skip(0) == bv);
        assert(out.deep_view() =~= Seq::<Seq<char>>::empty());
        assert(Seq::<Seq<char>>::empty() + spec_diff_pairs(label@, av, bv) =~= spec_diff_pairs(
            label@,
            av,
            bv,
        ));
    }
    while i < before.len() || j < after.len()
        invariant
            0 <= i <= before.len(),
            0 <= j <= after.len(),
            av == before.deep_view(),
            bv == after.deep_view(),
            av.len() == before.len(),
            bv.len() == after.len(),
            forall|x: int| 0 <= x < av.len() ==> #[trigger] av[x] == (
                before@[x].0@,
                before@[x].1@,
            ),
            forall|x: int| 0 <= x < bv.len() ==> #[trigger] bv[x] == (after@[x].0@, after@[x].1@),
            out.deep_view() + spec_diff_pairs(label@, av.skip(i as int), bv.skip(j as int))
                == spec_diff_pairs(label@, av, bv),
        decreases before.len() - i + after.len() - j,
    {
        proof {
            if i < av.len() {
                assert(av.skip(i as int)[0] == av[i as int]);
                assert(av.skip(i as int).drop_first() == av.skip(i + 1));
            }
            if j < bv.len() {
                assert(bv.skip(j as int)[0] == bv[j as int]);
                assert(bv.skip(j as int).drop_first() == bv.skip(j + 1));
            }
            assert(i >= av.len() ==> av.skip(i as int).len() == 0);
            assert(j >= bv.len() ==> bv.skip(j as int).len() == 0);
        }
        if j >= after.len() {
            out.push(render_removed(label, &before[i].0, &before[i].1));
            i = i + 1;
        } else if i >= before.len() {
            out.push(render_added(label, &after[j].0, &after[j].1));
            j = j + 1;
        } else if str_eq(before[i].0.as_str(), after[j].0.as_str()) {
            if !str_eq(before[i].1.as_str(), after[j].1.as_str()) {
                out.push(render_changed(label, &before[i].0, &before[i].1, &after[j].1));
            }
            i = i + 1;
            j = j + 1;
        } else if str_lex_lt(before[i].0.as_str(), after[j].0.as_str()) {
            out.push(render_removed(label, &before[i].0, &before[i].1));
            i = i + 1;
        } else {
            out.push(render_added(label, &after[j].0, &after[j].1));
            j = j + 1;
        }
    }
    proof {
        assert(av.skip(i as int).len() == 0);
        assert(bv.skip(j as int).len() == 0);
        assert(out.deep_view() + Seq::<Seq<char>>::empty() =~= out.deep_view());
    }
    out
}

/// Sorts key/value pairs by key, equal keys kept adjacent, and keeps the
/// collection of pairs itself unchanged.
pub fn sort_pairs(input: &Vec<(String, String)>) -> (r: Vec<(String, String)>)
    ensures
        r.deep_view().to_multiset() == input.deep_view().to_multiset(),
        sorted_le(r.deep_view()),
{
    let ghost iv = input.deep_view();
    let mut out: Vec<(String, String)> = Vec::new();
    let mut i: usize = 0;
    proof {
        assert(out.deep_view() =~= Seq::<DispPair>::empty());
        assert(iv.take(0) =~= Seq::<DispPair>::empty());
    }
    while i < input.len()
        invariant
            0 <= i <= input.len(),
            iv == input.deep_view(),
            iv.len() == input.len(),
            forall|x: int| 0 <= x < iv.len() ==> #[trigger] iv[x] == (input@[x].0@, input@[x].1@),
            out.deep_view().to_multiset() == iv.take(i as int).to_multiset(),
            sorted_le(out.deep_view()),
        decreases input.len() - i,
    {
        let ghost pre = out.deep_view();
        let x0 = input[i].0.clone();
        let x1 = input[i].1.clone();
        let ghost xd = (x0@, x1@);
        let mut pos: usize = 0;
        while pos < out.len() && !str_lex_lt(x0.as_str(), out[pos].0.as_str())
            invariant
                0 <= pos <= out.len(),
                xd == (x0@, x1@),
                pre == out.deep_view(),
                pre.len() == out.len(),
                forall|k: int| 0 <= k < pre.len() ==> #[trigger] pre[k] == (
                    out@[k].0@,
                    out@[k].1@,
                ),
                forall|k: int| 0 <= k < pos ==> !lex_lt(xd.0, (#[trigger] pre[k]).0),
            decreases out.len() - pos,
        {
            pos = pos + 1;
        }
        let ghost hit_end = pos >= out.len();
        proof {
            if !hit_end {
                assert(lex_lt(xd.0, pre[pos as int].0));
            }
        }
        let ghost prev = out@;
        out.insert(pos, (x0, x1));
        proof {
            assert(out@ == prev.insert(pos as int, (x0, x1)));
            // the deep view after the insert is the insert of the deep views
            assert forall|k: int| 0 <= k < out.deep_view().len() implies #[trigger] out.deep_view()[k]
                == pre.insert(pos as int, xd)[k] by {
                pre.insert_ensures(pos as int, xd);
                prev.insert_ensures(pos as int, (x0, x1));
                assert(out.deep_view()[k] == (out@[k].0@, out@[k].1@));
                if k < pos {
                    assert(out@[k] == prev[k]);
                } else if k == pos {
                    assert(out@[k] == (x0, x1));
                } else {
                    assert(out@[k] == prev[k - 1]);
                }
            }
            assert(out.deep_view().len() == pre.insert(pos as int, xd).len());
            assert(out.deep_view() =~= pre.insert(pos as int, xd));
            vstd::seq_lib::to_multiset_insert(pre, pos as int, xd);
            assert(iv.take(i + 1).drop_last() == iv.take(i as int));
            assert(iv.take(i + 1) == iv.take(i as int).push(iv[i as int]));
            vstd::seq_lib::to_multiset_build(iv.take(i as int), iv[i as int]);
            // sortedness after the insert
            let nv = out.deep_view();
            pre.insert_ensures(pos as int, xd);
            assert forall|k: int| 0 <= k && k + 1 < nv.len() implies key_le(
                #[trigger] nv[k],
                nv[k + 1],
            ) by {
                if k + 1 < pos {
                    assert(nv[k] == pre[k]);
                    assert(nv[k + 1] == pre[k + 1]);
                } else if k + 1 == pos {
                    assert(nv[k] == pre[k]);
                    assert(nv[k + 1] == xd);
                    assert(!lex_lt(xd.0, pre[k].0));
                } else if k == pos {
                    assert(nv[k] == xd);
                    assert(nv[k + 1] == pre[k]);
                    if k < pre.len() && !hit_end {
                        lemma_lex_trichotomy(xd.0, pre[k].0);
                    }
                } else {
                    assert(nv[k] == pre[k - 1]);
                    assert(nv[k + 1] == pre[k]);
                }
            }
        }
        i = i + 1;
    }
    proof {
        assert(iv.take(iv.len() as int) == iv);
    }
    out
}

/// A multiset-preserving, key-sorted rearrangement of a listing of a
/// mapping's pairs is that mapping's unique sorted listing.
pub proof fn lemma_canonical_sorted(
    sorted: Seq<DispPair>,
    source: Seq<DispPair>,
    m: Map<Seq<char>, Seq<char>>,
)
    requires
        sorted.to_multiset() == source.to_multiset(),
        sorted_le(sorted),
        forall|i: int|
            0 <= i < source.len() ==> m.contains_pair((#[trigger] source[i]).0, source[i].1),
        forall|k: Seq<char>|
            #[trigger] m.dom().contains(k) ==> exists|i: int|
                0 <= i < source.len() && (#[trigger] source[i]).0 == k,
        forall|i: int, j: int|
            0 <= i < source.len() && 0 <= j < source.len() && i != j ==> (#[trigger] source[i]).0
                != (#[trigger] source[j]).0,
    ensures
        is_sorted_pairs_of(sorted, m),
        sorted == sorted_pairs_of(m),
{
    broadcast use vstd::seq_lib::to_multiset_contains;

    // every sorted element is a source element, hence a pair of the mapping
    assert forall|i: int| 0 <= i < sorted.len() implies m.contains_pair(
        (#[trigger] sorted[i]).0,
        sorted[i].1,
    ) by {
        assert(sorted.contains(sorted[i]));
        assert(sorted.to_multiset().count(sorted[i]) > 0);
        assert(source.contains(sorted[i]));
        let j = choose|j: int| 0 <= j < source.len() && source[j] == sorted[i];
        assert(m.contains_pair(source[j].0, source[j].1));
    }
    // every key of the mapping appears in sorted
    assert forall|k: Seq<char>| #[trigger] m.dom().contains(k) implies exists|i: int|
        0 <= i < sorted.len() && (#[trigger] sorted[i]).0 == k by {
        let j = choose|j: int| 0 <= j < source.len() && (#[trigger] source[j]).0 == k;
        assert(source.contains(source[j]));
        assert(source.to_multiset().count(source[j]) > 0);
        assert(sorted.contains(source[j]));
        let i = choose|i: int| 0 <= i < sorted.len() && sorted[i] == source[j];
        assert(sorted[i].0 == k);
    }
    // strictness: no two sorted entries share a key
    assert(source.no_duplicates()) by {
        assert forall|i: int, j: int|
            0 <= i < source.len() && 0 <= j < source.len() && i != j implies source[i]
            != source[j] by {
            assert(source[i].0 != source[j].0);
        }
    }
    source.lemma_multiset_has_no_duplicates();
    assert forall|x: DispPair| sorted.to_multiset().contains(x) implies sorted.to_multiset().count(
        x,
    ) == 1 by {
        assert(source.to_multiset().contains(x));
    }
    sorted.lemma_multiset_has_no_duplicates_conv();
    assert forall|i: int| 0 <= i && i + 1 < sorted.len() implies key_lt(
        #[trigger] sorted[i],
        sorted[i + 1],
    ) by {
        assert(key_le(sorted[i], sorted[i + 1]));
        if sorted[i].0 == sorted[i + 1].0 {
            assert(sorted[i] != sorted[i + 1]);
            assert(sorted.contains(sorted[i]));
            assert(sorted.to_multiset().count(sorted[i]) > 0);
            assert(source.contains(sorted[i]));
            assert(sorted.contains(sorted[i + 1]));
            assert(sorted.to_multiset().count(sorted[i + 1]) > 0);
            assert(source.contains(sorted[i + 1]));
            let j1 = choose|j: int| 0 <= j < source.len() && source[j] == sorted[i];
            let j2 = choose|j: int| 0 <= j < source.len() && source[j] == sorted[i + 1];
            assert(j1 != j2);
            assert(source[j1].0 != source[j2].0);
            assert(false);
        }
        lemma_lex_trichotomy(sorted[i].0, sorted[i + 1].0);
    }
    assert(is_sorted_pairs_of(sorted, m));
    let w = sorted_pairs_of(m);
    assert(is_sorted_pairs_of(w, m)) by {
        assert(exists|v: Seq<DispPair>| is_sorted_pairs_of(v, m)) by {
            assert(is_sorted_pairs_of(sorted, m));
        }
    }
    lemma_sorted_pairs_unique(sorted, w, m);
}

/// The server mapping as the diff engine displays it: the string-valued
/// entries of the `servers` table, the reserved `try` key left out.
pub open spec fn server_disp_map(m: Map<Seq<char>, Option<Seq<char>>>) -> Map<Seq<char>, Seq<char>> {
    Map::new(
        |k: Seq<char>| m.dom().contains(k) && k != "try"@ && m[k] is Some,
        |k: Seq<char>| m[k]->0,
    )
}

/// The routing table as the diff engine displays it: each host's reference
/// list rendered as a bracketed, comma-joined string.
pub open spec fn hosts_disp_map(m: Map<Seq<char>, Seq<Seq<char>>>) -> Map<Seq<char>, Seq<char>> {
    Map::new(|k: Seq<char>| m.dom().contains(k), |k: Seq<char>| spec_list_display(m[k]))
}

/// The sorted display listing of the server mapping.
pub fn servers_disp_pairs(doc: &toml_edit::DocumentMut) -> (r: Vec<(String, String)>)
    ensures
        is_sorted_pairs_of(r.deep_view(), server_disp_map(doc_servers(*doc))),
        r.deep_view() == sorted_pairs_of(server_disp_map(doc_servers(*doc))),
{
    let ghost m = server_disp_map(doc_servers(*doc));
    let rows = servers_rows(doc);
    let ghost rv = rows.deep_view();
    let mut fd: Vec<(String, String)> = Vec::new();
    let mut i: usize = 0;
    while i < rows.len()
        invariant
            0 <= i <= rows.len(),
            m == server_disp_map(doc_servers(*doc)),
            rv == rows.deep_view(),
            rv.len() == rows.len(),
            forall|j: int| 0 <= j < rv.len() ==> #[trigger] rv[j] == (
                rows@[j].0@,
                rows@[j].1.deep_view(),
            ),
            crate::doc::rows_match_map(rv, doc_servers(*doc)),
            fd.deep_view().len() <= i,
            forall|x: int| 0 <= x < fd.deep_view().len() ==> #[trigger] fd.deep_view()[x] == (
                fd@[x].0@,
                fd@[x].1@,
            ),
            forall|x: int| 0 <= x < fd.deep_view().len() ==> m.contains_pair(
                (#[trigger] fd.deep_view()[x]).0,
                fd.deep_view()[x].1,
            ),
            forall|j: int|
                0 <= j < i && (#[trigger] rv[j]).0 != "try"@ && rv[j].1 is Some ==> exists|x: int|
                    0 <= x < fd.deep_view().len() && #[trigger] fd.deep_view()[x] == (
                    rv[j].0,
                    rv[j].1->0,
                ),
            forall|x: int| 0 <= x < fd.deep_view().len() ==> exists|j: int|
                0 <= j < i && #[trigger] rv[j] == (
                    (#[trigger] fd.deep_view()[x]).0,
                    Some(fd.deep_view()[x].1),
                ),
            forall|x: int, y: int|
                0 <= x < fd.deep_view().len() && 0 <= y < fd.deep_view().len() && x != y ==> (
                #[trigger] fd.deep_view()[x]).0 != (#[trigger] fd.deep_view()[y]).0,
        decreases rows.len() - i,
    {
        let ghost pre = fd.deep_view();
        let is_try = str_eq(rows[i].0.as_str(), "try");
        if !is_try {
            match &rows[i].1 {
                Some(addr) => {
                    let pair = (rows[i].0.clone(), addr.clone());
                    fd.push(pair);
                    proof {
                        assert(rv[i as int].1 == rows@[i as int].1.deep_view());
                        assert(rv[i as int].1 is Some);
                        assert(rv[i as int].1->0 == addr@);
                        assert(fd.deep_view() =~= pre.push((rv[i as int].0, rv[i as int].1->0)));
                        assert(doc_servers(*doc).contains_pair(rv[i as int].0, rv[i as int].1));
                        let nd = fd.deep_view();
                        let newx = nd.len() - 1;
                        assert(nd[newx] == (rv[i as int].0, rv[i as int].1->0));
                        assert(m.contains_pair(nd[newx].0, nd[newx].1));
                        assert(forall|x: int| 0 <= x < pre.len() ==> #[trigger] nd[x] == pre[x]);
                        // completeness: old witnesses survive, the new row has the new entry
                        assert forall|j: int|
                            0 <= j < i + 1 && (#[trigger] rv[j]).0 != "try"@ && rv[j].1 is Some
                            implies exists|x: int|
                                0 <= x < nd.len() && #[trigger] nd[x] == (rv[j].0, rv[j].1->0) by {
                            if j < i {
                                let x = choose|x: int|
                                    0 <= x < pre.len() && #[trigger] pre[x] == (
                                        rv[j].0,
                                        rv[j].1->0,
                                    );
                                assert(nd[x] == (rv[j].0, rv[j].1->0));
                            } else {
                                assert(nd[newx] == (rv[j].0, rv[j].1->0));
                            }
                        }
                        // the new key is fresh: every earlier entry stems from an earlier row
                        assert forall|x: int, y: int|
                            0 <= x < nd.len() && 0 <= y < nd.len() && x != y implies (
                            #[trigger] nd[x]).0 != (#[trigger] nd[y]).0 by {
                            if x == newx || y == newx {
                                let o = if x == newx { y } else { x };
                                assert(nd[o] == pre[o]);
                                let j = choose|j: int|
                                    0 <= j < i && #[trigger] rv[j] == (pre[o].0, Some(pre[o].1));
                                assert(rv[j].0 != rv[i as int].0);
                            } else {
                                assert(nd[x] == pre[x]);
                                assert(nd[y] == pre[y]);
                            }
                        }
                    }
                },
                None => {
                    proof {
                        assert(rv[i as int].1 == rows@[i as int].1.deep_view());
                        assert(rv[i as int].1 is None);
                    }
                },
            }
        } else {
            proof {
                assert(rv[i as int].0 == "try"@);
            }
        }
        i = i + 1;
    }
    let sorted = sort_pairs(&fd);
    proof {
        broadcast use vstd::seq_lib::to_multiset_contains;

        let source = fd.deep_view();
        assert forall|k: Seq<char>| #[trigger] m.dom().contains(k) implies exists|x: int|
            0 <= x < source.len() && (#[trigger] source[x]).0 == k by {
            assert(doc_servers(*doc).dom().contains(k));
            let j = choose|j: int| 0 <= j < rv.len() && (#[trigger] rv[j]).0 == k;
            assert(doc_servers(*doc).contains_pair(rv[j].0, rv[j].1));
            assert(rv[j].1 == doc_servers(*doc)[k]);
            assert(rv[j].0 != "try"@ && rv[j].1 is Some);
            let x = choose|x: int|
                0 <= x < source.len() && #[trigger] source[x] == (rv[j].0, rv[j].1->0);
            assert(source[x].0 == k);
        }
        lemma_canonical_sorted(sorted.deep_view(), source, m);
    }
    sorted
}

/// The sorted display listing of the routing table.
pub fn hosts_disp_pairs(doc: &toml_edit::DocumentMut) -> (r: Vec<(String, String)>)
    ensures
        is_sorted_pairs_of(r.deep_view(), hosts_disp_map(doc_hosts(*doc))),
        r.deep_view() == sorted_pairs_of(hosts_disp_map(doc_hosts(*doc))),
{
    let ghost m = hosts_disp_map(doc_hosts(*doc));
    let rows = hosts_rows(doc);
    let ghost rv = rows.deep_view();
    let mut fd: Vec<(String, String)> = Vec::new();
    let mut i: usize = 0;
    while i < rows.len()
        invariant
            0 <= i <= rows.len(),
            m == hosts_disp_map(doc_hosts(*doc)),
            rv == rows.deep_view(),
            rv.len() == rows.len(),
            forall|j: int| 0 <= j < rv.len() ==> #[trigger] rv[j] == (
                rows@[j].0@,
                rows@[j].1.deep_view(),
            ),
            crate::doc::rows_match_map(rv, doc_hosts(*doc)),
            fd.deep_view().len() == i,
            forall|j: int| 0 <= j < i ==> #[trigger] fd.deep_view()[j] == (
                rv[j].0,
                spec_list_display(rv[j].1),
            ),
        decreases rows.len() - i,
    {
        let ghost pre = fd.deep_view();
        let disp = list_display(&rows[i].1);
        let pair = (rows[i].0.clone(), disp);
        fd.push(pair);
        proof {
            assert(fd.deep_view() =~= pre.push((rv[i as int].0, spec_list_display(rv[i as int].1))));
        }
        i = i + 1;
    }
    let sorted = sort_pairs(&fd);
    proof {
        broadcast use vstd::seq_lib::to_multiset_contains;

        let source = fd.deep_view();
        assert forall|x: int| 0 <= x < source.len() implies m.contains_pair(
            (#[trigger] source[x]).0,
            source[x].1,
        ) by {
            assert(doc_hosts(*doc).contains_pair(rv[x].0, rv[x].1));
        }
        assert forall|k: Seq<char>| #[trigger] m.dom().contains(k) implies exists|x: int|
            0 <= x < source.len() && (#[trigger] source[x]).0 == k by {
            assert(doc_hosts(*doc).dom().contains(k));
            let j = choose|j: int| 0 <= j < rv.len() && (#[trigger] rv[j]).0 == k;
            assert(source[j].0 == k);
        }
        assert forall|x: int, y: int|
            0 <= x < source.len() && 0 <= y < source.len() && x != y implies (
            #[trigger] source[x]).0 != (#[trigger] source[y]).0 by {
            assert(source[x].0 == rv[x].0);
            assert(source[y].0 == rv[y].0);
        }
        lemma_canonical_sorted(sorted.deep_view(), source, m);
    }
    sorted
}

/// The rendering of a boolean value.
pub open spec fn bool_str(b: bool) -> Seq<char> {
    if b {
        "true"@
    } else {
        "false"@
    }
}

/// What the diff engine displays for a string field: the value, or nothing
/// where the key is absent or wrongly typed.
pub open spec fn disp_str(d: toml_edit::DocumentMut, k: Seq<char>) -> Option<Seq<char>> {
    if doc_strs(d).dom().contains(k) {
        Some(doc_strs(d)[k])
    } else {
        None
    }
}

/// What the diff engine displays for a boolean field.
pub open spec fn disp_bool(d: toml_edit::DocumentMut, k: Seq<char>) -> Option<Seq<char>> {
    if doc_bools(d).dom().contains(k) {
        Some(bool_str(doc_bools(d)[k]))
    } else {
        None
    }
}

/// What the diff engine displays for an integer field.
pub open spec fn disp_int(d: toml_edit::DocumentMut, k: Seq<char>) -> Option<Seq<char>> {
    if doc_ints(d).dom().contains(k) {
        Some(dec_rep_signed(doc_ints(d)[k]))
    } else {
        None
    }
}

/// The change line for one scalar field: nothing when the displays agree,
/// otherwise one `field: before -> after` line, with `(未設定)` for an
/// absent original and `(削除)` for an absent new value.
pub open spec fn scalar_line(
    label: Seq<char>,
    before: Option<Seq<char>>,
    after: Option<Seq<char>>,
) -> Seq<Seq<char>> {
    if before == after {
        Seq::empty()
    } else {
        seq![
            label + ": "@ + (match before {
                Some(v) => v,
                None => "(未設定)"@,
            }) + " -> "@ + (match after {
                Some(v) => v,
                None => "(削除)"@,
            })
        ]
    }
}

fn get_disp_str(d: &toml_edit::DocumentMut, key: &str) -> (r: Option<String>)
    ensures
        r.deep_view() == disp_str(*d, key@),
{
    get_str(d, key)
}

fn get_disp_bool(d: &toml_edit::DocumentMut, key: &str) -> (r: Option<String>)
    ensures
        r.deep_view() == disp_bool(*d, key@),
{
    match get_bool(d, key) {
        Some(true) => Some("true".to_owned()),
        Some(false) => Some("false".to_owned()),
        None => None,
    }
}

fn get_disp_int(d: &toml_edit::DocumentMut, key: &str) -> (r: Option<String>)
    ensures
        r.deep_view() == disp_int(*d, key@),
{
    match get_i64(d, key) {
        Some(v) => Some(i64_to_string(v)),
        None => None,
    }
}

/// Compares one scalar field's display before and after the edits.
pub fn diff_scalar(label: &str, before: &Option<String>, after: &Option<String>) -> (r: Vec<
    String,
>)
    ensures
        r.deep_view() == scalar_line(label@, before.deep_view(), after.deep_view()),
{
    let same = match (before, after) {
        (None, None) => true,
        (Some(b), Some(a)) => str_eq(b.as_str(), a.as_str()),
        _ => false,
    };
    let mut out: Vec<String> = Vec::new();
    if !same {
        let mut line = label.to_owned();
        line.append(": ");
        match before {
            Some(v) => line.append(v.as_str()),
            None => line.append("(未設定)"),
        }
        line.append(" -> ");
        match after {
            Some(v) => line.append(v.as_str()),
            None => line.append("(削除)"),
        }
        out.push(line);
        proof {
            assert(out.deep_view() =~= scalar_line(label@, before.deep_view(), after.deep_view()));
        }
    } else {
        proof {
            assert(out.deep_view() =~= scalar_line(label@, before.deep_view(), after.deep_view()));
        }
    }
    out
}

/// The change line for the try order: nothing when the lists agree
/// element-wise, otherwise one line rendering both lists.
pub open spec fn spec_try_diff(before: Seq<Seq<char>>, after: Seq<Seq<char>>) -> Seq<Seq<char>> {
    if before == after {
        Seq::empty()
    } else {
        seq![
            "servers.try: "@ + spec_list_display(before) + " -> "@ + spec_list_display(after)
        ]
    }
}

fn string_vecs_equal(a: &Vec<String>, b: &Vec<String>) -> (r: bool)
    ensures
        r == (a.deep_view() == b.deep_view()),
{
    if a.len() != b.len() {
        proof {
            assert(a.deep_view().len() == a.len());
            assert(b.deep_view().len() == b.len());
        }
        return false;
    }
    let mut i: usize = 0;
    while i < a.len()
        invariant
            0 <= i <= a.len(),
            a.len() == b.len(),
            a.deep_view().len() == a.len(),
            b.deep_view().len() == b.len(),
            forall|j: int| 0 <= j < a.deep_view().len() ==> a.deep_view()[j] == a@[j]@,
            forall|j: int| 0 <= j < b.deep_view().len() ==> b.deep_view()[j] == b@[j]@,
            forall|j: int| 0 <= j < i ==> a.deep_view()[j] == b.deep_view()[j],
        decreases a.len() - i,
    {
        if !str_eq(a[i].as_str(), b[i].as_str()) {
            proof {
                assert(a.deep_view()[i as int] != b.deep_view()[i as int]);
            }
            return false;
        }
        i = i + 1;
    }
    proof {
        assert(a.deep_view() =~= b.deep_view());
    }
    true
}

/// Compares the try order of the two documents.
pub fn diff_try_order(original: &toml_edit::DocumentMut, updated: &toml_edit::DocumentMut) -> (r:
    Vec<String>)
    ensures
        r.deep_view() == spec_try_diff(doc_try(*original), doc_try(*updated)),
{
    let before = try_rows(original);
    let after = try_rows(updated);
    let mut out: Vec<String> = Vec::new();
    if !string_vecs_equal(&before, &after) {
        let mut line = "servers.try: ".to_owned();
        let bd = list_display(&before);
        line.append(bd.as_str());
        line.append(" -> ");
        let ad = list_display(&after);
        line.append(ad.as_str());
        out.push(line);
        proof {
            assert(out.deep_view() =~= spec_try_diff(doc_try(*original), doc_try(*updated)));
        }
    } else {
        proof {
            assert(out.deep_view() =~= spec_try_diff(doc_try(*original), doc_try(*updated)));
        }
    }
    out
}

/// The whole change list between the original and the working document:
/// the scalar fields in declaration order, then the server mapping, the
/// try order, and the routing table.
pub open spec fn spec_summary(o: toml_edit::DocumentMut, w: toml_edit::DocumentMut) -> Seq<
    Seq<char>,
> {
    scalar_line("bind"@, disp_str(o, "bind"@), disp_str(w, "bind"@)) + scalar_line(
        "motd"@,
        disp_str(o, "motd"@),
        disp_str(w, "motd"@),
    ) + scalar_line(
        "show-max-players"@,
        disp_int(o, "show-max-players"@),
        disp_int(w, "show-max-players"@),
    ) + scalar_line(
        "online-mode"@,
        disp_bool(o, "online-mode"@),
        disp_bool(w, "online-mode"@),
    ) + scalar_line(
        "force-key-authentication"@,
        disp_bool(o, "force-key-authentication"@),
        disp_bool(w, "force-key-authentication"@),
    ) + scalar_line(
        "player-info-forwarding-mode"@,
        disp_str(o, "player-info-forwarding-mode"@),
        disp_str(w, "player-info-forwarding-mode"@),
    ) + scalar_line(
        "forwarding-secret-file"@,
        disp_str(o, "forwarding-secret-file"@),
        disp_str(w, "forwarding-secret-file"@),
    ) + spec_diff_pairs(
        "servers"@,
        sorted_pairs_of(server_disp_map(doc_servers(o))),
        sorted_pairs_of(server_disp_map(doc_servers(w))),
    ) + spec_try_diff(doc_try(o), doc_try(w)) + spec_diff_pairs(
        "forced-hosts"@,
        sorted_pairs_of(hosts_disp_map(doc_hosts(o))),
        sorted_pairs_of(hosts_disp_map(doc_hosts(w))),
    )
}

fn append_lines(dst: &mut Vec<String>, src: Vec<String>)
    ensures
        final(dst).deep_view() == old(dst).deep_view() + src.deep_view(),
{
    let ghost pre = dst.deep_view();
    let ghost sv = src.deep_view();
    let mut i: usize = 0;
    proof {
        assert(pre + sv.take(0) =~= pre);
    }
    while i < src.len()
        invariant
            0 <= i <= src.len(),
            sv == src.deep_view(),
            sv.len() == src.len(),
            forall|j: int| 0 <= j < sv.len() ==> sv[j] == src@[j]@,
            dst.deep_view() == pre + sv.take(i as int),
        decreases src.len() - i,
    {
        dst.push(src[i].clone());
        proof {
            assert(dst.deep_view() =~= (pre + sv.take(i as int)).push(sv[i as int]));
            assert(sv.take(i + 1) == sv.take(i as int).push(sv[i as int]));
            assert(dst.deep_view() =~= pre + sv.take(i + 1));
        }
        i = i + 1;
    }
    proof {
        assert(sv.take(sv.len() as int) == sv);
    }
}

/// Computes the full, ordered change list between the original and the
/// working document: scalar fields first in declaration order, then the
/// server mapping, the try order, and the routing table.
pub fn summarize_changes(original: &toml_edit::DocumentMut, updated: &toml_edit::DocumentMut) -> (
    r: Vec<String>)
    ensures
        r.deep_view() == spec_summary(*original, *updated),
{
    let mut out: Vec<String> = Vec::new();
    proof {
        assert(out.deep_view() =~= Seq::<Seq<char>>::empty());
    }
    let b = get_disp_str(original, "bind");
    let a = get_disp_str(updated, "bind");
    append_lines(&mut out, diff_scalar("bind", &b, &a));
    let b = get_disp_str(original, "motd");
    let a = get_disp_str(updated, "motd");
    append_lines(&mut out, diff_scalar("motd", &b, &a));
    let b = get_disp_int(original, "show-max-players");
    let a = get_disp_int(updated, "show-max-players");
    append_lines(&mut out, diff_scalar("show-max-players", &b, &a));
    let b = get_disp_bool(original, "online-mode");
    let a = get_disp_bool(updated, "online-mode");
    append_lines(&mut out, diff_scalar("online-mode", &b, &a));
    let b = get_disp_bool(original, "force-key-authentication");
    let a = get_disp_bool(updated, "force-key-authentication");
    append_lines(&mut out, diff_scalar("force-key-authentication", &b, &a));
    let b = get_disp_str(original, "player-info-forwarding-mode");
    let a = get_disp_str(updated, "player-info-forwarding-mode");
    append_lines(&mut out, diff_scalar("player-info-forwarding-mode", &b, &a));
    let b = get_disp_str(original, "forwarding-secret-file");
    let a = get_disp_str(updated, "forwarding-secret-file");
    append_lines(&mut out, diff_scalar("forwarding-secret-file", &b, &a));
    let sb = servers_disp_pairs(original);
    let sa = servers_disp_pairs(updated);
    append_lines(&mut out, diff_map("servers", &sb, &sa));
    append_lines(&mut out, diff_try_order(original, updated));
    let hb = hosts_disp_pairs(original);
    let ha = hosts_disp_pairs(updated);
    append_lines(&mut out, diff_map("forced-hosts", &hb, &ha));
    proof {
        assert(out.deep_view() =~= spec_summary(*original, *updated));
    }
    out
}

} // verus!
