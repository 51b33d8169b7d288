//! The verified parts of an order-preserving parallel map.
//!
//! Every input is tagged with its position before it is handed to a worker,
//! each worker maps one tagged item at a time and keeps the tag, and the
//! results, which arrive in whatever order the workers finish, are put back
//! in place by their tags. Threads and queues are left to the caller.
use vstd::prelude::*;

verus! {

/// The work items for `xs`: each element paired with its position.
pub open spec fn tagged<T>(xs: Seq<T>) -> Seq<(usize, T)> {
    Seq::new(xs.len(), |i: int| (i as usize, xs[i]))
}

/// Pairs every input with its original position, in input order.
pub fn tag_inputs<T>(inputs: Vec<T>) -> (r: Vec<(usize, T)>)
    ensures
        r@ == tagged(inputs@),
{
    let ghost xs = inputs@;
    let n: usize = inputs.len();
    let mut items: Vec<(usize, T)> = Vec::new();
    let mut index: usize = 0;
    for value in it: inputs.into_iter()
        invariant
            it.seq() == xs,
            xs.len() == n,
            index == it.index(),
            items@.len() == index,
            forall|j: int| 0 <= j < index ==> items@[j] == (j as usize, xs[j]),
    {
        items.push((index, value));
        index = index + 1;
    }
    assert(items@ =~= tagged(xs));
    items
}

/// Every position below `n` occurs exactly once among the tags of `rs`,
/// and no tag lies outside `0..n`.
pub open spec fn each_index_once<U>(n: nat, rs: Seq<(usize, U)>) -> bool {
    &&& forall|j: int| 0 <= j < rs.len() ==> (#[trigger] rs[j]).0 < n
    &&& forall|j: int, k: int|
        0 <= j < rs.len() && 0 <= k < rs.len() && j != k ==> (#[trigger] rs[j]).0 != (#[trigger] rs[k]).0
    &&& forall|i: int| 0 <= i < n ==> #[trigger] delivered(rs, i)
}

/// Some result of `rs` is tagged with position `i`.
pub open spec fn delivered<U>(rs: Seq<(usize, U)>, i: int) -> bool {
    exists|j: int| 0 <= j < rs.len() && (#[trigger] rs[j]).0 == i
}

/// Each result of `rs` stands in `out` at the position it is tagged with.
pub open spec fn placed<U>(out: Seq<U>, rs: Seq<(usize, U)>) -> bool {
    forall|j: int| 0 <= j < rs.len() ==> out[(#[trigger] rs[j]).0 as int] == rs[j].1
}

/// Builds the output of length `n` from tagged results that arrived in any
/// order. Every slot starts as a placeholder and is overwritten by the
/// result tagged with its position. The output is returned only when each
/// position in `0..n` was delivered exactly once; a lost, repeated or
/// out-of-range tag gives `None`, so no placeholder is ever handed out.
pub fn collect_results<U: Default>(n: usize, results: Vec<(usize, U)>) -> (r: Option<Vec<U>>)
    ensures
        r.is_some() <==> each_index_once(n as nat, results@),
        r matches Some(out) ==> out@.len() == n && placed(out@, results@),
{
    let ghost rs = results@;
    let mut out: Vec<U> = Vec::new();
    let mut filled: Vec<bool> = Vec::new();
    for i in 0..n
        invariant
            out@.len() == i,
            filled@.len() == i,
            forall|k: int| 0 <= k < i ==> !filled@[k],
    {
        out.push(U::default());
        filled.push(false);
    }
    for item in it: results.into_iter()
        invariant
            it.seq() == rs,
            out@.len() == n,
            filled@.len() == n,
            forall|j: int| 0 <= j < it.index() ==> {
                let t = (#[trigger] rs[j]).0;
                t < n && filled@[t as int] && out@[t as int] == rs[j].1
            },
            forall|j: int, k: int|
                0 <= j < it.index() && 0 <= k < it.index() && j != k ==> (#[trigger] rs[j]).0
                    != (#[trigger] rs[k]).0,
            forall|i: int|
                0 <= i < n && #[trigger] filled@[i] ==> exists|j: int|
                    0 <= j < it.index() && (#[trigger] rs[j]).0 == i,
    {
        let (index, value) = item;
        if index >= n {
            assert(rs[it.index() as int].0 >= n);
            return None;
        }
        if filled[index] {
            let ghost j = choose|j: int| 0 <= j < it.index() && (#[trigger] rs[j]).0 == index;
            assert(rs[j].0 == rs[it.index() as int].0);
            return None;
        }
        out.set(index, value);
        filled.set(index, true);
    }
    for i in 0..n
        invariant
            out@.len() == n,
            filled@.len() == n,
            forall|k: int| 0 <= k < i ==> #[trigger] filled@[k],
            forall|j: int| 0 <= j < rs.len() ==> {
                let t = (#[trigger] rs[j]).0;
                t < n && filled@[t as int] && out@[t as int] == rs[j].1
            },
            forall|j: int, k: int|
                0 <= j < rs.len() && 0 <= k < rs.len() && j != k ==> (#[trigger] rs[j]).0
                    != (#[trigger] rs[k]).0,
            forall|k: int| 0 <= k < n && #[trigger] filled@[k] ==> delivered(rs, k),
            rs == results@,
    {
        if !filled[i] {
            assert(!delivered(rs, i as int));
            return None;
        }
    }
    assert forall|i: int| 0 <= i < n implies #[trigger] delivered(rs, i) by {
        assert(filled@[i]);
    }
    Some(out)
}

/// The results that the mapping `f` gives for `xs`, each tagged with the
/// position of its input.
pub open spec fn mapped<T, U>(xs: Seq<T>, f: spec_fn(T) -> U) -> Seq<(usize, U)> {
    Seq::new(xs.len(), |i: int| (i as usize, f(xs[i])))
}

/// The results came back as the mapped work items, each once, in any order.
pub open spec fn delivered_in_some_order<T, U>(
    xs: Seq<T>,
    f: spec_fn(T) -> U,
    rs: Seq<(usize, U)>,
) -> bool {
    rs.to_multiset() =~= mapped(xs, f).to_multiset()
}

proof fn lemma_results_are_mapped<T, U>(xs: Seq<T>, f: spec_fn(T) -> U, rs: Seq<(usize, U)>)
    requires
        xs.len() <= usize::MAX,
        delivered_in_some_order(xs, f, rs),
    ensures
        each_index_once(xs.len(), rs),
        forall|j: int|
            0 <= j < rs.len() ==> #[trigger] rs[j] == mapped(xs, f)[rs[j].0 as int],
{
    broadcast use vstd::seq_lib::to_multiset_contains;

    let ws = mapped(xs, f);
    assert(ws.no_duplicates()) by {
        assert forall|a: int, b: int| 0 <= a < ws.len() && 0 <= b < ws.len() && a != b implies ws[a]
            != ws[b] by {
            assert(ws[a].0 != ws[b].0);
        }
    }
    ws.lemma_multiset_has_no_duplicates();
    rs.lemma_multiset_has_no_duplicates_conv();
    assert forall|j: int| 0 <= j < rs.len() implies #[trigger] rs[j] == ws[rs[j].0 as int]
        && rs[j].0 < xs.len() by {
        assert(rs.contains(rs[j]));
        assert(rs.to_multiset().count(rs[j]) > 0);
        assert(ws.to_multiset().count(rs[j]) > 0);
        assert(ws.contains(rs[j]));
        let i = choose|i: int| 0 <= i < ws.len() && ws[i] == rs[j];
        assert(ws[i].0 == i);
    }
    assert forall|j: int, k: int|
        0 <= j < rs.len() && 0 <= k < rs.len() && j != k implies (#[trigger] rs[j]).0
        != (#[trigger] rs[k]).0 by {
        if rs[j].0 == rs[k].0 {
            assert(rs[j] == ws[rs[j].0 as int]);
            assert(rs[k] == ws[rs[k].0 as int]);
        }
    }
    assert forall|i: int| 0 <= i < xs.len() implies #[trigger] delivered(rs, i) by {
        assert(ws.contains(ws[i]));
        assert(ws.to_multiset().count(ws[i]) > 0);
        assert(rs.to_multiset().count(ws[i]) > 0);
        assert(rs.contains(ws[i]));
        let j = choose|j: int| 0 <= j < rs.len() && rs[j] == ws[i];
        assert(rs[j].0 == i);
    }
}

/// Results that come back as the mapped work items, in whatever order the
/// workers finished, carry every position of the input exactly once.
pub proof fn lemma_each_index_once<T, U>(xs: Seq<T>, f: spec_fn(T) -> U, rs: Seq<(usize, U)>)
    requires
        xs.len() <= usize::MAX,
        delivered_in_some_order(xs, f, rs),
    ensures
        each_index_once(xs.len(), rs),
{
    lemma_results_are_mapped(xs, f, rs);
}

/// Order is preserved: whatever order the results arrive in, the output
/// built from them holds `f(xs[i])` at every position `i`, and is exactly as
/// long as the input.
pub proof fn lemma_order_preserved<T, U>(
    xs: Seq<T>,
    f: spec_fn(T) -> U,
    rs: Seq<(usize, U)>,
    out: Seq<U>,
)
    requires
        xs.len() <= usize::MAX,
        delivered_in_some_order(xs, f, rs),
        out.len() == xs.len(),
        placed(out, rs),
    ensures
        out == xs.map_values(f),
{
    lemma_results_are_mapped(xs, f, rs);
    assert forall|i: int| 0 <= i < xs.len() implies out[i] == f(xs[i]) by {
        assert(delivered(rs, i));
        let j = choose|j: int| 0 <= j < rs.len() && (#[trigger] rs[j]).0 == i;
        assert(rs[j] == mapped(xs, f)[i]);
    }
    assert(out =~= xs.map_values(f));
}

/// Order is preserved for any mapping closure: when each position came back
/// exactly once and every result is what `f` returns on the input its tag
/// names, as `process_item` ensures, the output built from those results
/// holds at each position `i` a value that `f` returns on `xs[i]`.
pub proof fn lemma_outputs_follow_inputs<T, U, F: Fn(T) -> U>(
    xs: Seq<T>,
    f: F,
    rs: Seq<(usize, U)>,
    out: Seq<U>,
)
    requires
        each_index_once(xs.len(), rs),
        forall|j: int| 0 <= j < rs.len() ==> f.ensures((xs[(#[trigger] rs[j]).0 as int],), rs[j].1),
        out.len() == xs.len(),
        placed(out, rs),
    ensures
        forall|i: int| 0 <= i < xs.len() ==> f.ensures((xs[i],), #[trigger] out[i]),
{
    assert forall|i: int| 0 <= i < xs.len() implies f.ensures((xs[i],), #[trigger] out[i]) by {
        assert(delivered(rs, i));
        let j = choose|j: int| 0 <= j < rs.len() && (#[trigger] rs[j]).0 == i;
        assert(out[rs[j].0 as int] == rs[j].1);
    }
}

/// The output does not depend on how the work was spread over the workers:
/// two runs whose results arrive in different orders give the same output.
pub proof fn lemma_delivery_order_irrelevant<T, U>(
    xs: Seq<T>,
    f: spec_fn(T) -> U,
    rs1: Seq<(usize, U)>,
    out1: Seq<U>,
    rs2: Seq<(usize, U)>,
    out2: Seq<U>,
)
    requires
        xs.len() <= usize::MAX,
        delivered_in_some_order(xs, f, rs1),
        out1.len() == xs.len(),
        placed(out1, rs1),
        delivered_in_some_order(xs, f, rs2),
        out2.len() == xs.len(),
        placed(out2, rs2),
    ensures
        out1 == out2,
{
    lemma_order_preserved(xs, f, rs1, out1);
    lemma_order_preserved(xs, f, rs2, out2);
}

/// Slot `i` of `out` holds the result that `rs` tagged with `i`.
pub open spec fn filled_from<U>(out: Seq<U>, rs: Seq<(usize, U)>, i: int) -> bool {
    exists|j: int| 0 <= j < rs.len() && (#[trigger] rs[j]).0 == i && out[i] == rs[j].1
}

/// When each position is delivered exactly once, every slot of the output
/// holds a delivered result: no placeholder is left behind.
pub proof fn lemma_no_placeholder_left<U>(n: nat, rs: Seq<(usize, U)>, out: Seq<U>)
    requires
        each_index_once(n, rs),
        out.len() == n,
        placed(out, rs),
    ensures
        forall|i: int| 0 <= i < n ==> #[trigger] filled_from(out, rs, i),
{
    assert forall|i: int| 0 <= i < n implies #[trigger] filled_from(out, rs, i) by {
        assert(delivered(rs, i));
        let j = choose|j: int| 0 <= j < rs.len() && (#[trigger] rs[j]).0 == i;
        assert(out[rs[j].0 as int] == rs[j].1);
    }
}

/// Applies the mapping to one work item, keeping its position tag.
pub fn process_item<T, U, F: Fn(T) -> U>(f: &F, item: (usize, T)) -> (r: (usize, U))
    requires
        f.requires((item.1,)),
    ensures
        r.0 == item.0,
        f.ensures((item.1,), r.1),
{
    let (index, value) = item;
    (index, f(value))
}

} // verus!
