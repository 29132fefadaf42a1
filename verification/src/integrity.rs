//! The referential-integrity pass: finds routing-table references to
//! server names that no longer exist, and removes exactly those references
//! once the operator confirms.

use vstd::prelude::*;

use crate::doc::{doc_hosts, host_remove, host_set_list, hosts_rows, rows_match_map};
use crate::editors::{spec_unknown_names, unknown_names};
use crate::text::str_eq;

verus! {

/// One routing-table host whose reference list names servers that are not
/// defined any more: the host, its full current list, and the dangling
/// subset.
pub struct InvalidEntry {
    pub host: String,
    pub all: Vec<String>,
    pub invalid: Vec<String>,
}

impl View for InvalidEntry {
    type V = (Seq<char>, Seq<Seq<char>>, Seq<Seq<char>>);

    open spec fn view(&self) -> (Seq<char>, Seq<Seq<char>>, Seq<Seq<char>>) {
        (self.host@, self.all.deep_view(), self.invalid.deep_view())
    }
}

impl DeepView for InvalidEntry {
    type V = (Seq<char>, Seq<Seq<char>>, Seq<Seq<char>>);

    open spec fn deep_view(&self) -> (Seq<char>, Seq<Seq<char>>, Seq<Seq<char>>) {
        self.view()
    }
}

/// The affected hosts among the routing rows, in row order: each host
/// whose list references at least one name outside the defined set, with
/// its full list and the dangling subset in list order.
pub open spec fn spec_collect_invalid(
    rows: Seq<(Seq<char>, Seq<Seq<char>>)>,
    names: Seq<Seq<char>>,
) -> Seq<(Seq<char>, Seq<Seq<char>>, Seq<Seq<char>>)>
    decreases rows.len(),
{
    if rows.len() == 0 {
        Seq::empty()
    } else {
        spec_collect_invalid(rows.drop_last(), names) + (if spec_unknown_names(
            rows.last().1,
            names,
        ).len() > 0 {
            seq![(rows.last().0, rows.last().1, spec_unknown_names(rows.last().1, names))]
        } else {
            Seq::empty()
        })
    }
}

fn clone_string_vec(v: &Vec<String>) -> (r: Vec<String>)
    ensures
        r.deep_view() == v.deep_view(),
{
    let mut out: Vec<String> = Vec::new();
    let mut i: usize = 0;
    while i < v.len()
        invariant
            0 <= i <= v.len(),
            v.deep_view().len() == v.len(),
            out.deep_view() == v.deep_view().take(i as int),
        decreases v.len() - i,
    {
        out.push(v[i].clone());
        proof {
            assert(v.deep_view().take(i + 1) == v.deep_view().take(i as int).push(
                v.deep_view()[i as int],
            ));
        }
        i = i + 1;
    }
    proof {
        assert(v.deep_view().take(v.len() as int) == v.deep_view());
    }
    out
}

/// Scans the routing rows against the defined server names and reports
/// every host with dangling references.
pub fn collect_invalid(rows: &Vec<(String, Vec<String>)>, names: &Vec<String>) -> (r: Vec<
    InvalidEntry,
>)
    ensures
        r.deep_view() == spec_collect_invalid(rows.deep_view(), names.deep_view()),
{
    let ghost rv = rows.deep_view();
    let mut out: Vec<InvalidEntry> = Vec::new();
    let mut i: usize = 0;
    while i < rows.len()
        invariant
            0 <= i <= rows.len(),
            rv == rows.deep_view(),
            rv.len() == rows.len(),
            forall|j: int| 0 <= j < rv.len() ==> #[trigger] rv[j] == (
                rows@[j].0@,
                rows@[j].1.deep_view(),
            ),
            out.deep_view() == spec_collect_invalid(rv.take(i as int), names.deep_view()),
        decreases rows.len() - i,
    {
        proof {
            assert(rv.take(i + 1).drop_last() == rv.take(i as int));
            assert(rv.take(i + 1).last() == rv[i as int]);
        }
        let bad = unknown_names(&rows[i].1, names);
        if bad.len() > 0 {
            let entry = InvalidEntry {
                host: rows[i].0.clone(),
                all: clone_string_vec(&rows[i].1),
                invalid: bad,
            };
            out.push(entry);
        }
        i = i + 1;
    }
    proof {
        assert(rv.take(rv.len() as int) == rv);
    }
    out
}

/// Every array-valued row of the routing table, with its referenced names.
pub fn host_entries(doc: &toml_edit::DocumentMut) -> (r: Vec<(String, Vec<String>)>)
    ensures
        rows_match_map(r.deep_view(), doc_hosts(*doc)),
{
    hosts_rows(doc)
}

/// Removes exactly the given dangling references from one host's list,
/// keeping the remaining names in their relative order; reports whether
/// the list became empty. The list is rewritten from its string elements:
/// a non-string element of the stored array — outside the data model,
/// which makes these lists server-name references — does not survive the
/// rewrite.
pub fn apply_host_cleanup(
    doc: &mut toml_edit::DocumentMut,
    host: &str,
    invalid: &Vec<String>,
) -> (became_empty: bool)
    requires
        doc_hosts(*old(doc)).dom().contains(host@),
    ensures
        doc_hosts(*final(doc)) == doc_hosts(*old(doc)).insert(
            host@,
            spec_unknown_names(doc_hosts(*old(doc))[host@], invalid.deep_view()),
        ),
        became_empty == (spec_unknown_names(
            doc_hosts(*old(doc))[host@],
            invalid.deep_view(),
        ).len() == 0),
        crate::doc::doc_servers(*final(doc)) == crate::doc::doc_servers(*old(doc)),
        crate::doc::doc_try(*final(doc)) == crate::doc::doc_try(*old(doc)),
        crate::doc::doc_strs(*final(doc)) == crate::doc::doc_strs(*old(doc)),
        crate::doc::doc_bools(*final(doc)) == crate::doc::doc_bools(*old(doc)),
        crate::doc::doc_ints(*final(doc)) == crate::doc::doc_ints(*old(doc)),
{
    let rows = hosts_rows(doc);
    let ghost rv = rows.deep_view();
    let mut i: usize = 0;
    let mut found: Option<usize> = None;
    while i < rows.len()
        invariant
            0 <= i <= rows.len(),
            rv == rows.deep_view(),
            rv.len() == rows.len(),
            forall|j: int| 0 <= j < rv.len() ==> #[trigger] rv[j] == (
                rows@[j].0@,
                rows@[j].1.deep_view(),
            ),
            rows_match_map(rv, doc_hosts(*doc)),
            found is None ==> forall|j: int| 0 <= j < i ==> (#[trigger] rv[j]).0 != host@,
            found matches Some(k) ==> 0 <= k < rows.len() && rv[k as int].0 == host@,
        decreases rows.len() - i,
    {
        if found.is_none() && str_eq(rows[i].0.as_str(), host) {
            found = Some(i);
        }
        i = i + 1;
    }
    proof {
        if found is None {
            let j = choose|j: int| 0 <= j < rv.len() && (#[trigger] rv[j]).0 == host@;
            assert(false);
        }
    }
    let k = match found {
        Some(k) => k,
        None => {
            proof {
                assert(false);
            }
            0
        },
    };
    proof {
        assert(doc_hosts(*doc).contains_pair(rv[k as int].0, rv[k as int].1));
        assert(rv[k as int].1 == doc_hosts(*doc)[host@]);
    }
    let kept = unknown_names(&rows[k].1, invalid);
    let became_empty = kept.len() == 0;
    host_set_list(doc, host, &kept);
    became_empty
}

/// Removes a routing-table host entry whose reference list became empty,
/// once the operator confirms.
pub fn drop_host(doc: &mut toml_edit::DocumentMut, host: &str)
    ensures
        doc_hosts(*final(doc)) == doc_hosts(*old(doc)).remove(host@),
        crate::doc::doc_servers(*final(doc)) == crate::doc::doc_servers(*old(doc)),
        crate::doc::doc_try(*final(doc)) == crate::doc::doc_try(*old(doc)),
        crate::doc::doc_strs(*final(doc)) == crate::doc::doc_strs(*old(doc)),
        crate::doc::doc_bools(*final(doc)) == crate::doc::doc_bools(*old(doc)),
        crate::doc::doc_ints(*final(doc)) == crate::doc::doc_ints(*old(doc)),
{
    host_remove(doc, host);
}

/// Every name of the list is a defined server name.
pub open spec fn all_known(list: Seq<Seq<char>>, names: Seq<Seq<char>>) -> bool {
    forall|j: int| 0 <= j < list.len() ==> names.contains(#[trigger] list[j])
}

proof fn lemma_unknown_empty(list: Seq<Seq<char>>, names: Seq<Seq<char>>)
    requires
        all_known(list, names),
    ensures
        spec_unknown_names(list, names) == Seq::<Seq<char>>::empty(),
    decreases list.len(),
{
    if list.len() > 0 {
        assert(names.contains(list[list.len() - 1]));
        lemma_unknown_empty(list.drop_last(), names);
        assert(spec_unknown_names(list, names) =~= Seq::<Seq<char>>::empty());
    }
}

proof fn lemma_unknown_keeps_all(list: Seq<Seq<char>>, names: Seq<Seq<char>>)
    requires
        forall|j: int| 0 <= j < list.len() ==> !names.contains(#[trigger] list[j]),
    ensures
        spec_unknown_names(list, names) == list,
    decreases list.len(),
{
    if list.len() > 0 {
        lemma_unknown_keeps_all(list.drop_last(), names);
        assert(spec_unknown_names(list, names) =~= list);
    } else {
        assert(spec_unknown_names(list, names) =~= list);
    }
}

proof fn lemma_unknown_single(list: Seq<Seq<char>>, names: Seq<Seq<char>>, n: Seq<char>, idx: int)
    requires
        0 <= idx < list.len(),
        list[idx] == n,
        !names.contains(n),
        forall|j: int| 0 <= j < list.len() && j != idx ==> names.contains(#[trigger] list[j]),
    ensures
        spec_unknown_names(list, names) == seq![n],
    decreases list.len(),
{
    if idx == list.len() - 1 {
        assert(all_known(list.drop_last(), names));
        lemma_unknown_empty(list.drop_last(), names);
        assert(spec_unknown_names(list, names) =~= seq![n]);
    } else {
        lemma_unknown_single(list.drop_last(), names, n, idx);
        assert(names.contains(list[list.len() - 1]));
        assert(spec_unknown_names(list, names) =~= seq![n]);
    }
}

proof fn lemma_unknown_removes_exactly(list: Seq<Seq<char>>, n: Seq<char>, idx: int)
    requires
        0 <= idx < list.len(),
        list[idx] == n,
        forall|j: int| 0 <= j < list.len() && j != idx ==> #[trigger] list[j] != n,
    ensures
        spec_unknown_names(list, seq![n]) == list.remove(idx),
    decreases list.len(),
{
    let single = seq![n];
    assert(forall|x: Seq<char>| single.contains(x) ==> x == n);
    assert(single[0] == n);
    assert(single.contains(n));
    if idx == list.len() - 1 {
        lemma_unknown_keeps_all(list.drop_last(), single);
        assert(spec_unknown_names(list, single) =~= list.remove(idx));
    } else {
        lemma_unknown_removes_exactly(list.drop_last(), n, idx);
        assert(!single.contains(list[list.len() - 1]));
        assert(spec_unknown_names(list, single) =~= list.drop_last().remove(idx).push(
            list[list.len() - 1],
        ));
        assert(spec_unknown_names(list, single) =~= list.remove(idx));
    }
}

proof fn lemma_collect_none(rows: Seq<(Seq<char>, Seq<Seq<char>>)>, names: Seq<Seq<char>>)
    requires
        forall|i: int| 0 <= i < rows.len() ==> all_known((#[trigger] rows[i]).1, names),
    ensures
        spec_collect_invalid(rows, names) == Seq::<(Seq<char>, Seq<Seq<char>>, Seq<
            Seq<char>,
        >)>::empty(),
    decreases rows.len(),
{
    if rows.len() > 0 {
        lemma_collect_none(rows.drop_last(), names);
        lemma_unknown_empty(rows[rows.len() - 1].1, names);
        assert(spec_collect_invalid(rows, names) =~= Seq::<(Seq<char>, Seq<Seq<char>>, Seq<
            Seq<char>,
        >)>::empty());
    }
}

/// The law the cleanup obeys for a single dangling reference: when exactly
/// one routing host references exactly one name that is not defined any
/// more, the integrity pass flags exactly that host with exactly that name,
/// and the confirmed cleanup keeps every other reference of that host in
/// its relative order, removing only the dangling one. Declining the
/// confirmation calls no mutating function, so the dangling reference then
/// stays in place by construction.
pub proof fn lemma_dangling_reference_cleanup(
    rows: Seq<(Seq<char>, Seq<Seq<char>>)>,
    names: Seq<Seq<char>>,
    h: int,
    hlist: Seq<Seq<char>>,
    n: Seq<char>,
    idx: int,
)
    requires
        0 <= h < rows.len(),
        hlist == rows[h].1,
        0 <= idx < hlist.len(),
        hlist[idx] == n,
        !names.contains(n),
        forall|j: int| 0 <= j < hlist.len() && j != idx ==> names.contains(#[trigger] hlist[j]),
        forall|j: int| 0 <= j < hlist.len() && j != idx ==> #[trigger] hlist[j] != n,
        forall|i: int| 0 <= i < rows.len() && i != h ==> all_known((#[trigger] rows[i]).1, names),
    ensures
        spec_collect_invalid(rows, names) == seq![(rows[h].0, hlist, seq![n])],
        spec_unknown_names(hlist, names) == seq![n],
        spec_unknown_names(hlist, seq![n]) == hlist.remove(idx),
    decreases rows.len(),
{
    lemma_unknown_single(hlist, names, n, idx);
    lemma_unknown_removes_exactly(hlist, n, idx);
    if h == rows.len() - 1 {
        assert(forall|i: int|
            0 <= i < rows.drop_last().len() ==> all_known((#[trigger] rows.drop_last()[i]).1, names));
        lemma_collect_none(rows.drop_last(), names);
        assert(spec_collect_invalid(rows, names) =~= seq![(rows[h].0, hlist, seq![n])]);
    } else {
        lemma_dangling_reference_cleanup(rows.drop_last(), names, h, hlist, n, idx);
        lemma_unknown_empty(rows[rows.len() - 1].1, names);
        assert(spec_collect_invalid(rows, names) =~= seq![(rows[h].0, hlist, seq![n])]);
    }
}

} // verus!
