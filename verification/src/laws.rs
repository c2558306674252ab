//! Laws of the merge engine, stated and proved over its specification
//! functions.

use vstd::prelude::*;
use crate::json::{json_norm, json_wf};
use crate::name::name_of;
use crate::registry::{
    aggregate, has_name, load_spec, name_index, upsert1, upsert_outcome, upsert_result,
    ApplyOutcome, RecordView, SourceFileView,
};
use crate::render::render_spec;

verus! {

/// The record a label file with well-formed JSON contributes.
pub open spec fn record_of_file(f: SourceFileView) -> RecordView {
    RecordView { name: name_of(f.path)->Some_0, path: f.path, contents: json_norm(f.text) }
}

/// Every file is a label file holding well-formed JSON.
pub open spec fn all_valid(files: Seq<SourceFileView>) -> bool {
    &&& forall|i: int| 0 <= i < files.len() ==> name_of((#[trigger] files[i]).path) is Some
    &&& forall|i: int| 0 <= i < files.len() ==> json_wf((#[trigger] files[i]).text)
}

/// No two files carry the same component name.
pub open spec fn distinct_names(files: Seq<SourceFileView>) -> bool {
    forall|i: int, j: int|
        0 <= i < files.len() && 0 <= j < files.len() && i != j ==> name_of(
            (#[trigger] files[i]).path,
        ) != name_of((#[trigger] files[j]).path)
}

proof fn lemma_has_name_push(v: Seq<RecordView>, r: RecordView, n: Seq<char>)
    ensures
        has_name(v.push(r), n) <==> (has_name(v, n) || r.name == n),
{
    if has_name(v, n) {
        let i = choose|i: int| 0 <= i < v.len() && v[i].name == n;
        assert(v.push(r)[i].name == n);
    }
    if r.name == n {
        assert(v.push(r)[v.len() as int].name == n);
    }
    if has_name(v.push(r), n) && !(r.name == n) {
        let i = choose|i: int| 0 <= i < v.push(r).len() && v.push(r)[i].name == n;
        assert(i < v.len());
        assert(v[i].name == n);
    }
}

/// A bulk load over valid files whose names are pairwise distinct and all
/// new to the registry cannot fail, and appends one record per file, in
/// enumeration order.
pub proof fn lemma_load_fresh(v: Seq<RecordView>, files: Seq<SourceFileView>)
    requires
        all_valid(files),
        distinct_names(files),
        forall|i: int|
            0 <= i < files.len() ==> !has_name(v, name_of((#[trigger] files[i]).path)->Some_0),
    ensures
        load_spec(v, files).error is None,
        load_spec(v, files).state == v + files.map_values(|f: SourceFileView| record_of_file(f)),
    decreases files.len(),
{
    if files.len() == 0 {
        assert(v + files.map_values(|f: SourceFileView| record_of_file(f)) =~= v);
    } else {
        let f = files[0];
        let n = name_of(f.path)->Some_0;
        let rec = record_of_file(f);
        assert(!has_name(v, n));
        assert(upsert1(v, n, f.path, json_norm(f.text)) == v.push(rec));
        let rest = files.drop_first();
        assert forall|i: int| 0 <= i < rest.len() implies !has_name(
            v.push(rec),
            name_of((#[trigger] rest[i]).path)->Some_0,
        ) by {
            assert(rest[i] == files[i + 1]);
            lemma_has_name_push(v, rec, name_of(rest[i].path)->Some_0);
            assert(name_of(files[i + 1].path) != name_of(files[0].path));
        };
        assert forall|i: int| 0 <= i < rest.len() implies name_of(
            (#[trigger] rest[i]).path,
        ) is Some && json_wf(rest[i].text) by {
            assert(rest[i] == files[i + 1]);
        };
        lemma_load_fresh(v.push(rec), rest);
        assert(load_spec(v, files) == load_spec(v.push(rec), rest));
        assert(v.push(rec) + rest.map_values(|g: SourceFileView| record_of_file(g)) =~= v
            + files.map_values(|g: SourceFileView| record_of_file(g)));
    }
}

/// For files with distinct valid names and well-formed JSON, the bulk load
/// from an empty registry succeeds, builds one record per file in order,
/// and the aggregate document maps each component name to exactly that
/// file's canonical document text.
pub proof fn lemma_load_complete(files: Seq<SourceFileView>)
    requires
        all_valid(files),
        distinct_names(files),
    ensures
        load_spec(Seq::<RecordView>::empty(), files).error is None,
        load_spec(Seq::<RecordView>::empty(), files).state == files.map_values(
            |f: SourceFileView| record_of_file(f),
        ),
        load_spec(Seq::<RecordView>::empty(), files).state.len() == files.len(),
        forall|i: int|
            0 <= i < files.len() ==> aggregate(
                load_spec(Seq::<RecordView>::empty(), files).state,
            ).contains_pair(
                name_of((#[trigger] files[i]).path)->Some_0,
                json_norm(files[i].text),
            ),
        forall|n: Seq<char>|
            aggregate(load_spec(Seq::<RecordView>::empty(), files).state).dom().contains(n)
                ==> exists|i: int| 0 <= i < files.len() && name_of((#[trigger] files[i]).path)
                == Some(n),
{
    lemma_load_fresh(Seq::<RecordView>::empty(), files);
    let st = load_spec(Seq::<RecordView>::empty(), files).state;
    assert(st =~= files.map_values(|f: SourceFileView| record_of_file(f)));
    assert forall|i: int| 0 <= i < files.len() implies aggregate(st).contains_pair(
        name_of((#[trigger] files[i]).path)->Some_0,
        json_norm(files[i].text),
    ) by {
        let n = name_of(files[i].path)->Some_0;
        assert(st[i].name == n);
        assert(has_name(st, n));
        let j = name_index(st, n);
        assert(0 <= j < st.len() && st[j].name == n);
        assert(name_of(files[j].path) == Some(n) && name_of(files[i].path) == Some(n));
        assert(j == i);
        assert(aggregate(st).dom().contains(n));
        assert(aggregate(st)[n] == json_norm(files[i].text));
    };
    assert forall|n: Seq<char>| aggregate(st).dom().contains(n) implies exists|i: int|
        0 <= i < files.len() && name_of((#[trigger] files[i]).path) == Some(n) by {
        let j = name_index(st, n);
        assert(0 <= j < st.len() && st[j].name == n);
        assert(name_of(files[j].path) == Some(n));
    };
}

proof fn lemma_dup_count<A>(s: Seq<A>, i: int, j: int)
    requires
        0 <= i < s.len(),
        0 <= j < s.len(),
        i != j,
        s[i] == s[j],
    ensures
        s.to_multiset().count(s[i]) >= 2,
{
    broadcast use vstd::seq_lib::to_multiset_remove, vstd::seq_lib::to_multiset_contains, vstd::multiset::group_multiset_axioms;

    let x = s[i];
    let r = s.remove(i);
    let j2: int = if j < i {
        j
    } else {
        j - 1
    };
    assert(r[j2] == x);
    assert(r.contains(x));
    assert(r.to_multiset().count(x) > 0);
    assert(r.to_multiset() == s.to_multiset().remove(x));
}

proof fn lemma_count_dup<A>(s: Seq<A>, x: A)
    requires
        s.to_multiset().count(x) >= 2,
    ensures
        exists|i: int, j: int|
            0 <= i < s.len() && 0 <= j < s.len() && i != j && s[i] == x && s[j] == x,
{
    broadcast use vstd::seq_lib::to_multiset_remove, vstd::seq_lib::to_multiset_contains, vstd::multiset::group_multiset_axioms;

    assert(s.to_multiset().count(x) > 0);
    assert(s.contains(x));
    let i = choose|i: int| 0 <= i < s.len() && s[i] == x;
    let r = s.remove(i);
    assert(r.to_multiset() == s.to_multiset().remove(x));
    assert(r.to_multiset().count(x) > 0);
    assert(r.contains(x));
    let j2 = choose|j: int| 0 <= j < r.len() && r[j] == x;
    let j: int = if j2 < i {
        j2
    } else {
        j2 + 1
    };
    assert(s[j] == x);
    assert(0 <= i < s.len() && 0 <= j < s.len() && i != j && s[i] == x && s[j] == x);
}

proof fn lemma_same_elems(a: Seq<SourceFileView>, b: Seq<SourceFileView>, x: SourceFileView)
    requires
        a.to_multiset() == b.to_multiset(),
        b.contains(x),
    ensures
        a.contains(x),
{
    broadcast use vstd::seq_lib::to_multiset_contains;

    assert(b.to_multiset().count(x) > 0);
    assert(a.to_multiset().count(x) > 0);
}

/// The aggregate document of a clean bulk load does not depend on the
/// order the files were enumerated in: two enumerations of the same files
/// produce the same aggregate.
pub proof fn lemma_order_independent(a: Seq<SourceFileView>, b: Seq<SourceFileView>)
    requires
        all_valid(a),
        distinct_names(a),
        a.to_multiset() == b.to_multiset(),
    ensures
        all_valid(b),
        distinct_names(b),
        aggregate(load_spec(Seq::<RecordView>::empty(), a).state) == aggregate(
            load_spec(Seq::<RecordView>::empty(), b).state,
        ),
{
    broadcast use vstd::seq_lib::to_multiset_contains, vstd::multiset::group_multiset_axioms;

    assert forall|i: int| 0 <= i < b.len() implies name_of((#[trigger] b[i]).path) is Some
        && json_wf(b[i].text) by {
        assert(b[i] == b[i]);
        assert(b.contains(b[i]));
        assert(a.to_multiset().count(b[i]) > 0);
        assert(a.contains(b[i]));
        let k = choose|k: int| 0 <= k < a.len() && a[k] == b[i];
        assert(name_of(a[k].path) is Some && json_wf(a[k].text));
    };
    assert forall|i: int, j: int|
        0 <= i < b.len() && 0 <= j < b.len() && i != j implies name_of((#[trigger] b[i]).path)
        != name_of((#[trigger] b[j]).path) by {
        if name_of(b[i].path) == name_of(b[j].path) {
            if b[i] == b[j] {
                lemma_dup_count(b, i, j);
                lemma_count_dup(a, b[i]);
                let (k, l): (int, int) = choose|k: int, l: int|
                    0 <= k < a.len() && 0 <= l < a.len() && k != l && a[k] == b[i] && a[l] == b[i];
                assert(name_of(a[k].path) == name_of(a[l].path));
                assert(false);
            } else {
                assert(b.contains(b[i]) && b.contains(b[j]));
                lemma_same_elems(a, b, b[i]);
                lemma_same_elems(a, b, b[j]);
                let k = choose|k: int| 0 <= k < a.len() && a[k] == b[i];
                let l = choose|l: int| 0 <= l < a.len() && a[l] == b[j];
                assert(k != l);
                assert(name_of(a[k].path) == name_of(a[l].path));
                assert(false);
            }
        }
    };
    lemma_load_complete(a);
    lemma_load_complete(b);
    let sa = load_spec(Seq::<RecordView>::empty(), a).state;
    let sb = load_spec(Seq::<RecordView>::empty(), b).state;
    assert forall|n: Seq<char>| has_name(sa, n) implies has_name(sb, n) by {
        let i = name_index(sa, n);
        assert(0 <= i < sa.len() && sa[i].name == n);
        assert(a.contains(a[i]));
        lemma_same_elems(b, a, a[i]);
        let k = choose|k: int| 0 <= k < b.len() && b[k] == a[i];
        assert(sb[k].name == n);
    };
    assert forall|n: Seq<char>| has_name(sb, n) implies has_name(sa, n) by {
        let i = name_index(sb, n);
        assert(0 <= i < sb.len() && sb[i].name == n);
        assert(b.contains(b[i]));
        lemma_same_elems(a, b, b[i]);
        let k = choose|k: int| 0 <= k < a.len() && a[k] == b[i];
        assert(sa[k].name == n);
    };
    assert forall|n: Seq<char>| #[trigger] has_name(sa, n) && has_name(sb, n) implies sa[name_index(
        sa,
        n,
    )].contents == sb[name_index(sb, n)].contents by {
        let i = name_index(sa, n);
        let j = name_index(sb, n);
        assert(0 <= i < sa.len() && sa[i].name == n);
        assert(0 <= j < sb.len() && sb[j].name == n);
        assert(b.contains(b[j]));
        lemma_same_elems(a, b, b[j]);
        let k = choose|k: int| 0 <= k < a.len() && a[k] == b[j];
        assert(name_of(a[k].path) == Some(n) && name_of(a[i].path) == Some(n));
        assert(k == i);
        assert(sa[i].contents == json_norm(a[i].text));
        assert(sb[j].contents == json_norm(b[j].text));
    };
    assert(aggregate(sa) =~= aggregate(sb));
}

/// Merging is deterministic: two full runs over the same enumerated files,
/// each from an empty registry, build the same registry and render
/// byte-for-byte the same aggregate text.
pub proof fn lemma_merge_repeatable(first: Seq<SourceFileView>, second: Seq<SourceFileView>)
    requires
        first == second,
    ensures
        load_spec(Seq::<RecordView>::empty(), first) == load_spec(
            Seq::<RecordView>::empty(),
            second,
        ),
        render_spec(load_spec(Seq::<RecordView>::empty(), first).state) == render_spec(
            load_spec(Seq::<RecordView>::empty(), second).state,
        ),
{
}

/// A file whose path is not a label file never affects a bulk load:
/// inserted at any position, it leaves both the resulting state and the
/// resulting error exactly as they were.
pub proof fn lemma_nonmatching_excluded(
    v: Seq<RecordView>,
    files: Seq<SourceFileView>,
    i: int,
    f: SourceFileView,
)
    requires
        0 <= i <= files.len(),
        name_of(f.path) is None,
    ensures
        load_spec(v, files.insert(i, f)) == load_spec(v, files),
    decreases files.len(),
{
    let w = files.insert(i, f);
    if i == 0 {
        assert(w[0] == f);
        assert(w.drop_first() =~= files);
    } else {
        assert(w[0] == files[0]);
        assert(w.drop_first() =~= files.drop_first().insert(i - 1, f));
        let g = files[0];
        match name_of(g.path) {
            None => {
                lemma_nonmatching_excluded(v, files.drop_first(), i - 1, f);
            },
            Some(n) => {
                if json_wf(g.text) && !(has_name(v, n) && v[name_index(v, n)].path != g.path) {
                    lemma_nonmatching_excluded(
                        upsert1(v, n, g.path, json_norm(g.text)),
                        files.drop_first(),
                        i - 1,
                        f,
                    );
                }
            },
        }
    }
}

/// A watch event that would introduce a duplicate (its name owned by a
/// different path) leaves the registry, and so the rendered output,
/// unchanged.
pub proof fn lemma_conflict_preserves(
    v: Seq<RecordView>,
    path: Seq<char>,
    text: Option<Seq<char>>,
)
    requires
        upsert_outcome(v, path, text) == ApplyOutcome::Conflict,
    ensures
        upsert_result(v, path, text) == v,
        render_spec(upsert_result(v, path, text)) == render_spec(v),
{
}

} // verus!
